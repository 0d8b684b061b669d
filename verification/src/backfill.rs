//! History that was recorded before a session began: cut into the chunks that the
//! live state machine would have made, and into pieces that do not hold the engine up.

use vstd::prelude::*;

use crate::single::{self, Scaled, Single};
use crate::vad::{VadTuning, FRAME_DURATION_BITS};

verus! {

/// How much audio one history job holds at most: five seconds.
pub const BACKFILL_JOB_QUANTUM_BITS: u32 = 0x40a0_0000;

/// A stretch of history, from sample `start` up to, not counting, `end`.
#[derive(Clone, Copy, Debug, PartialEq, Eq, Structural)]
pub struct VadBackfillChunk {
    pub start: usize,
    pub end: usize,
}

// --- Walking the probabilities ---

/// What the walk over the probabilities goes by: the samples of the history, the
/// samples of one frame, the two thresholds, the frames of a pause and of a long
/// chunk, and the samples before an onset.
pub struct WalkRules {
    pub total: nat,
    pub frame: nat,
    pub onset: Single,
    pub offset: Single,
    pub silence_windows: nat,
    pub max_chunk_windows: nat,
    pub pre_roll: nat,
}

/// Where the walk stands.
pub struct Walk {
    pub speaking: bool,
    pub speech_start: nat,
    pub silence_run: nat,
    pub speech_run: nat,
    pub prev_end: nat,
    pub chunks: Seq<VadBackfillChunk>,
}

/// The samples of one frame at this rate.
pub open spec fn frame_samples(sample_rate: u32) -> nat {
    let secs = Single { bits: FRAME_DURATION_BITS };
    single::frame_count((secs.mant(), secs.exp()), sample_rate as nat)
}

/// How many frames a length of time takes, in single precision.
pub open spec fn windows(nanos: u128) -> (nat, int) {
    let secs = Single { bits: FRAME_DURATION_BITS };
    single::quotient(single::span_seconds(nanos as nat), (secs.mant(), secs.exp()))
}

/// The rules for a history of `total` samples.
pub open spec fn rules(total: usize, sample_rate: u32, t: VadTuning) -> WalkRules {
    WalkRules {
        total: total as nat,
        frame: frame_samples(sample_rate),
        onset: t.speech_threshold,
        offset: t.offset_threshold,
        silence_windows: single::capped(single::ceiling(windows(t.silence_duration))),
        max_chunk_windows: {
            let n = single::capped(single::whole(windows(t.max_chunk_duration)));
            if n >= 1 {
                n
            } else {
                1
            }
        },
        pre_roll: single::frame_count(single::span_seconds(t.pre_roll as nat), sample_rate as nat),
    }
}

/// Where frame `i` begins.
pub open spec fn frame_start(i: nat, k: WalkRules) -> nat {
    i * k.frame
}

/// Where frame `i` ends: the history may end within it.
pub open spec fn frame_end(i: nat, k: WalkRules) -> nat {
    if (i + 1) * k.frame <= k.total {
        (i + 1) * k.frame
    } else {
        k.total
    }
}

/// A stretch of history as the walk records it.
pub open spec fn chunk(start: nat, end: nat) -> VadBackfillChunk {
    VadBackfillChunk { start: start as usize, end: end as usize }
}

/// One frame of the walk.
pub open spec fn stepped(w: Walk, p: Single, i: nat, k: WalkRules) -> Walk {
    let begin = frame_start(i, k);
    let end = frame_end(i, k);
    if w.speaking {
        if p.ge(k.offset) {
            if w.speech_run + 1 >= k.max_chunk_windows {
                Walk {
                    speaking: true,
                    speech_start: end,
                    silence_run: 0,
                    speech_run: 0,
                    prev_end: end,
                    chunks: w.chunks.push(chunk(w.speech_start, end)),
                }
            } else {
                Walk { silence_run: 0, speech_run: w.speech_run + 1, ..w }
            }
        } else if w.silence_run + 1 >= k.silence_windows {
            Walk {
                speaking: false,
                speech_start: w.speech_start,
                silence_run: 0,
                speech_run: 0,
                prev_end: end,
                chunks: w.chunks.push(chunk(w.speech_start, end)),
            }
        } else {
            Walk { silence_run: w.silence_run + 1, speech_run: w.speech_run + 1, ..w }
        }
    } else if p.ge(k.onset) {
        let rewound: nat = if begin >= k.pre_roll {
            (begin - k.pre_roll) as nat
        } else {
            0
        };
        Walk {
            speaking: true,
            speech_start: if rewound >= w.prev_end {
                rewound
            } else {
                w.prev_end
            },
            silence_run: 0,
            speech_run: 1,
            prev_end: w.prev_end,
            chunks: w.chunks,
        }
    } else {
        w
    }
}

/// The walk before the first frame.
pub open spec fn walk_start() -> Walk {
    Walk {
        speaking: false,
        speech_start: 0,
        silence_run: 0,
        speech_run: 0,
        prev_end: 0,
        chunks: Seq::empty(),
    }
}

/// The walk over the first `n` frames, as far as they begin within the history.
pub open spec fn walked(probs: Seq<Single>, n: nat, k: WalkRules) -> Walk
    decreases n,
{
    if n == 0 {
        walk_start()
    } else {
        let w = walked(probs, (n - 1) as nat, k);
        if frame_start((n - 1) as nat, k) >= k.total {
            w
        } else {
            stepped(w, probs[n - 1], (n - 1) as nat, k)
        }
    }
}

/// The chunks of a walk once it is over: speech that no pause ended is one more.
pub open spec fn walk_chunks(w: Walk, k: WalkRules) -> Seq<VadBackfillChunk> {
    if w.speaking && w.speech_start < k.total {
        w.chunks.push(chunk(w.speech_start, k.total))
    } else {
        w.chunks
    }
}

/// The chunks of a history.
pub open spec fn history_chunks(
    probs: Seq<Single>,
    total: usize,
    sample_rate: u32,
    t: VadTuning,
) -> Seq<VadBackfillChunk> {
    let k = rules(total, sample_rate, t);
    if probs.len() == 0 || total == 0 || k.frame == 0 {
        Seq::empty()
    } else {
        walk_chunks(walked(probs, probs.len(), k), k)
    }
}

/// Whether stretches follow one another: none is empty, none begins before the one in
/// front of it has ended.
pub open spec fn apart(chunks: Seq<VadBackfillChunk>) -> bool {
    &&& forall|i: int| 0 <= i < chunks.len() ==> (#[trigger] chunks[i]).start < chunks[i].end
    &&& forall|i: int, j: int|
        0 <= i < j < chunks.len() ==> (#[trigger] chunks[i]).end <= (#[trigger] chunks[j]).start
}

/// Whether every stretch lies within the first `total` samples.
pub open spec fn within(chunks: Seq<VadBackfillChunk>, total: nat) -> bool {
    forall|i: int| 0 <= i < chunks.len() ==> (#[trigger] chunks[i]).end <= total
}

/// Where the walk has got to after `n` frames.
pub open spec fn reached(n: nat, k: WalkRules) -> nat {
    if n * k.frame <= k.total {
        n * k.frame
    } else {
        k.total
    }
}

/// What every frame of the walk keeps.
pub open spec fn walk_inv(w: Walk, n: nat, k: WalkRules) -> bool {
    &&& apart(w.chunks)
    &&& within(w.chunks, w.prev_end)
    &&& w.prev_end <= reached(n, k)
    &&& w.speaking ==> w.prev_end <= w.speech_start <= reached(n, k)
    &&& w.speech_run <= n
    &&& w.silence_run <= n
}

proof fn lemma_push_apart(chunks: Seq<VadBackfillChunk>, bound: nat, start: nat, end: nat)
    requires
        apart(chunks),
        within(chunks, bound),
        bound <= start < end <= usize::MAX,
    ensures
        apart(chunks.push(chunk(start, end))),
        within(chunks.push(chunk(start, end)), end),
{
    let pushed = chunks.push(chunk(start, end));
    assert forall|i: int| 0 <= i < pushed.len() implies (#[trigger] pushed[i]).start
        < pushed[i].end && pushed[i].end <= end by {
        if i < chunks.len() {
            assert(pushed[i] == chunks[i]);
        }
    }
    assert forall|i: int, j: int| 0 <= i < j < pushed.len() implies (#[trigger] pushed[i]).end <= (
    #[trigger] pushed[j]).start by {
        assert(pushed[i] == chunks[i]);
        if j < chunks.len() {
            assert(pushed[j] == chunks[j]);
        }
    }
}

proof fn lemma_step_keeps(w: Walk, p: Single, i: nat, k: WalkRules)
    requires
        k.frame > 0,
        k.total <= usize::MAX,
        walk_inv(w, i, k),
        frame_start(i, k) < k.total,
    ensures
        walk_inv(stepped(w, p, i, k), i + 1, k),
{
    assert((i + 1) * k.frame == i * k.frame + k.frame) by (nonlinear_arith);
    let end = frame_end(i, k);
    assert(reached(i + 1, k) == end);
    assert(reached(i, k) == frame_start(i, k));
    if w.speaking {
        lemma_push_apart(w.chunks, w.prev_end, w.speech_start, end);
    }
    assert(within(w.chunks, w.prev_end));
}

proof fn lemma_walk_keeps(probs: Seq<Single>, n: nat, k: WalkRules)
    requires
        k.frame > 0,
        k.total <= usize::MAX,
    ensures
        walk_inv(walked(probs, n, k), n, k),
    decreases n,
{
    if n == 0 {
        assert(0 * k.frame == 0) by (nonlinear_arith);
    } else {
        lemma_walk_keeps(probs, (n - 1) as nat, k);
        let w = walked(probs, (n - 1) as nat, k);
        assert(n * k.frame == (n - 1) * k.frame + k.frame) by (nonlinear_arith);
        if frame_start((n - 1) as nat, k) < k.total {
            lemma_step_keeps(w, probs[n - 1], (n - 1) as nat, k);
        }
    }
}

/// The chunks of a history never overlap, come in order, are not empty and lie within
/// the history: the pre-roll of one never reaches into the one before.
pub proof fn law_history_chunks_apart(
    probs: Seq<Single>,
    total: usize,
    sample_rate: u32,
    t: VadTuning,
)
    ensures
        apart(history_chunks(probs, total, sample_rate, t)),
        within(history_chunks(probs, total, sample_rate, t), total as nat),
{
    let k = rules(total, sample_rate, t);
    if !(probs.len() == 0 || total == 0 || k.frame == 0) {
        lemma_walk_keeps(probs, probs.len(), k);
        let w = walked(probs, probs.len(), k);
        if w.speaking && w.speech_start < k.total {
            lemma_push_apart(w.chunks, w.prev_end, w.speech_start, k.total);
        }
    }
}

proof fn lemma_walk_stays(probs: Seq<Single>, n: nat, m: nat, k: WalkRules)
    requires
        n <= m,
        frame_start(n, k) >= k.total,
    ensures
        walked(probs, m, k) == walked(probs, n, k),
    decreases m,
{
    if n < m {
        lemma_walk_stays(probs, n, (m - 1) as nat, k);
        assert((m - 1) * k.frame >= n * k.frame) by (nonlinear_arith)
            requires
                m - 1 >= n,
        ;
    }
}

/// The chunks that the live state machine would have made of a history, given one
/// probability per frame.
pub fn backfill_chunks_from_probabilities(
    probabilities: &[Single],
    total_samples: usize,
    sample_rate: u32,
    tuning: &VadTuning,
) -> (r: Vec<VadBackfillChunk>)
    requires
        tuning.wf(),
    ensures
        r@ == history_chunks(probabilities@, total_samples, sample_rate, *tuning),
        apart(r@),
        within(r@, total_samples as nat),
{
    proof {
        law_history_chunks_apart(probabilities@, total_samples, sample_rate, *tuning);
    }
    if probabilities.len() == 0 || total_samples == 0 {
        return Vec::new();
    }
    let frame_secs: Scaled = (Single { bits: FRAME_DURATION_BITS }).scaled();
    assert(frame_secs.mant > 0);
    let frame: usize = single::frames_in(frame_secs, sample_rate);
    if frame == 0 {
        return Vec::new();
    }
    let silence_windows: usize = single::rounded_up(
        single::over(single::seconds_of_span(tuning.silence_duration), frame_secs),
    );
    let long: usize = single::whole_part(
        single::over(single::seconds_of_span(tuning.max_chunk_duration), frame_secs),
    );
    let max_chunk_windows: usize = if long >= 1 {
        long
    } else {
        1
    };
    let pre_roll: usize = single::frames_in(
        single::seconds_of_span(tuning.pre_roll),
        sample_rate,
    );
    let ghost k = rules(total_samples, sample_rate, *tuning);
    let ghost probs = probabilities@;

    let mut chunks: Vec<VadBackfillChunk> = Vec::new();
    let mut speaking: bool = false;
    let mut speech_start: usize = 0;
    let mut silence_run: usize = 0;
    let mut speech_run: usize = 0;
    let mut prev_end: usize = 0;
    let mut w_start: usize = 0;
    let mut i: usize = 0;
    assert(0 * k.frame == 0) by (nonlinear_arith);
    while i < probabilities.len() && w_start < total_samples
        invariant
            i <= probs.len(),
            probs == probabilities@,
            probs.len() <= usize::MAX,
            k == rules(total_samples, sample_rate, *tuning),
            k.frame == frame > 0,
            k.total == total_samples,
            k.onset == tuning.speech_threshold,
            k.offset == tuning.offset_threshold,
            k.silence_windows == silence_windows,
            k.max_chunk_windows == max_chunk_windows,
            k.pre_roll == pre_roll,
            w_start == reached(i as nat, k),
            walk_inv(walked(probs, i as nat, k), i as nat, k),
            ({
                let w = walked(probs, i as nat, k);
                &&& w.speaking == speaking
                &&& speaking ==> w.speech_start == speech_start
                &&& w.silence_run == silence_run
                &&& w.speech_run == speech_run
                &&& w.prev_end == prev_end
                &&& w.chunks == chunks@
            }),
        decreases probs.len() - i,
    {
        proof {
            assert((i + 1) * k.frame == i * k.frame + k.frame) by (nonlinear_arith);
            lemma_walk_keeps(probs, (i + 1) as nat, k);
        }
        let w_end: usize = if total_samples - w_start < frame {
            total_samples
        } else {
            w_start + frame
        };
        let p: Single = probabilities[i];
        if speaking {
            speech_run = speech_run + 1;
            if p.at_least(tuning.offset_threshold) {
                silence_run = 0;
                if speech_run >= max_chunk_windows {
                    chunks.push(VadBackfillChunk { start: speech_start, end: w_end });
                    prev_end = w_end;
                    speech_start = w_end;
                    speech_run = 0;
                }
            } else {
                silence_run = silence_run + 1;
                if silence_run >= silence_windows {
                    chunks.push(VadBackfillChunk { start: speech_start, end: w_end });
                    prev_end = w_end;
                    speaking = false;
                    speech_run = 0;
                    silence_run = 0;
                }
            }
        } else {
            if p.at_least(tuning.speech_threshold) {
                let rewound: usize = w_start.saturating_sub(pre_roll);
                speech_start = if rewound >= prev_end {
                    rewound
                } else {
                    prev_end
                };
                speaking = true;
                speech_run = 1;
                silence_run = 0;
            }
        }
        w_start = w_end;
        i = i + 1;
    }
    proof {
        if i < probs.len() {
            assert(i * k.frame >= k.total);
            lemma_walk_stays(probs, i as nat, probs.len(), k);
        }
    }
    if speaking && speech_start < total_samples {
        chunks.push(VadBackfillChunk { start: speech_start, end: total_samples });
    }
    chunks
}

// --- Pieces ---

/// A stretch cut into pieces of at most `quantum` samples.
pub open spec fn pieces(start: nat, end: nat, quantum: nat) -> Seq<VadBackfillChunk>
    decreases end - start,
{
    if start >= end || quantum == 0 {
        Seq::empty()
    } else {
        let next = if end - start <= quantum {
            end
        } else {
            start + quantum
        };
        seq![chunk(start, next)] + pieces(next, end, quantum)
    }
}

/// Every stretch cut into pieces, in order.
pub open spec fn all_pieces(chunks: Seq<VadBackfillChunk>, quantum: nat) -> Seq<VadBackfillChunk>
    decreases chunks.len(),
{
    if chunks.len() == 0 {
        Seq::empty()
    } else {
        all_pieces(chunks.drop_last(), quantum) + pieces(
            chunks.last().start as nat,
            chunks.last().end as nat,
            quantum,
        )
    }
}

/// The samples of one history job at this rate.
pub open spec fn quantum_samples(sample_rate: u32) -> nat {
    let secs = Single { bits: BACKFILL_JOB_QUANTUM_BITS };
    single::frame_count((secs.mant(), secs.exp()), sample_rate as nat)
}

/// The stretches as they are sent to the engine.
pub open spec fn job_pieces(chunks: Seq<VadBackfillChunk>, sample_rate: u32) -> Seq<
    VadBackfillChunk,
> {
    if quantum_samples(sample_rate) == 0 {
        chunks
    } else {
        all_pieces(chunks, quantum_samples(sample_rate))
    }
}

/// Whether position `p` lies in one of the stretches.
pub open spec fn covered(chunks: Seq<VadBackfillChunk>, p: int) -> bool {
    exists|i: int| 0 <= i < chunks.len() && (#[trigger] chunks[i]).start <= p < chunks[i].end
}

/// Cuts every stretch into pieces that the engine can take one after the other.
pub fn split_backfill_chunks(chunks: Vec<VadBackfillChunk>, sample_rate: u32) -> (r: Vec<
    VadBackfillChunk,
>)
    ensures
        r@ == job_pieces(chunks@, sample_rate),
{
    let secs: Scaled = (Single { bits: BACKFILL_JOB_QUANTUM_BITS }).scaled();
    let quantum: usize = single::frames_in(secs, sample_rate);
    if quantum == 0 {
        return chunks;
    }
    let mut split: Vec<VadBackfillChunk> = Vec::new();
    let mut i: usize = 0;
    assert(chunks@.take(0) =~= Seq::<VadBackfillChunk>::empty());
    while i < chunks.len()
        invariant
            i <= chunks@.len(),
            quantum > 0,
            split@ == all_pieces(chunks@.take(i as int), quantum as nat),
        decreases chunks@.len() - i,
    {
        let end: usize = chunks[i].end;
        let mut start: usize = chunks[i].start;
        let ghost before = split@;
        let ghost all = pieces(start as nat, end as nat, quantum as nat);
        assert(before + Seq::<VadBackfillChunk>::empty() =~= before);
        while start < end
            invariant
                quantum > 0,
                split@ + pieces(start as nat, end as nat, quantum as nat) == before + all,
            decreases end - start,
        {
            let next: usize = if end - start <= quantum {
                end
            } else {
                start + quantum
            };
            let ghost held = split@;
            split.push(VadBackfillChunk { start, end: next });
            assert(split@ + pieces(next as nat, end as nat, quantum as nat) =~= held + (seq![
                chunk(start as nat, next as nat),
            ] + pieces(next as nat, end as nat, quantum as nat)));
            start = next;
        }
        assert(split@ =~= before + all);
        i = i + 1;
        assert(chunks@.take(i as int).drop_last() =~= chunks@.take(i - 1));
    }
    assert(chunks@.take(i as int) =~= chunks@);
    split
}

proof fn lemma_pieces(start: nat, end: nat, quantum: nat)
    requires
        quantum > 0,
        end <= usize::MAX,
    ensures
        apart(pieces(start, end, quantum)),
        forall|i: int|
            0 <= i < pieces(start, end, quantum).len() ==> {
                let p = #[trigger] pieces(start, end, quantum)[i];
                start <= p.start && p.end <= end && p.end - p.start <= quantum
            },
        forall|p: int| start <= p < end ==> #[trigger] covered(pieces(start, end, quantum), p),
    decreases end - start,
{
    if start < end {
        let next: nat = if end - start <= quantum {
            end
        } else {
            start + quantum
        };
        lemma_pieces(next, end, quantum);
        let rest = pieces(next, end, quantum);
        let all = pieces(start, end, quantum);
        assert(all =~= seq![chunk(start, next)] + rest);
        assert(all[0] == chunk(start, next));
        assert forall|i: int| 0 < i < all.len() implies all[i] == rest[i - 1] by {}
        assert forall|i: int| 0 <= i < all.len() implies (#[trigger] all[i]).start < all[i].end
            && start <= all[i].start && all[i].end <= end && all[i].end - all[i].start
            <= quantum by {
            if i > 0 {
                assert(all[i] == rest[i - 1]);
            }
        }
        assert forall|i: int, j: int| 0 <= i < j < all.len() implies (#[trigger] all[i]).end <= (
        #[trigger] all[j]).start by {
            assert(all[j] == rest[j - 1]);
            if i > 0 {
                assert(all[i] == rest[i - 1]);
            }
        }
        assert forall|p: int| start <= p < end implies #[trigger] covered(all, p) by {
            if p < next {
                assert(all[0].start <= p < all[0].end);
            } else {
                assert(covered(rest, p));
                let i = choose|i: int|
                    0 <= i < rest.len() && (#[trigger] rest[i]).start <= p < rest[i].end;
                assert(all[i + 1].start <= p < all[i + 1].end);
            }
        }
    }
}

/// No job is longer than the quantum, none is empty, and the jobs hold exactly the
/// samples of the stretches that they were cut from.
pub proof fn law_pieces_cover(chunks: Seq<VadBackfillChunk>, quantum: nat, p: int)
    requires
        quantum > 0,
    ensures
        forall|i: int|
            0 <= i < all_pieces(chunks, quantum).len() ==> {
                let c = #[trigger] all_pieces(chunks, quantum)[i];
                c.start < c.end && c.end - c.start <= quantum
            },
        covered(all_pieces(chunks, quantum), p) == covered(chunks, p),
    decreases chunks.len(),
{
    if chunks.len() > 0 {
        let init = chunks.drop_last();
        let last = chunks.last();
        law_pieces_cover(init, quantum, p);
        lemma_pieces(last.start as nat, last.end as nat, quantum);
        let a = all_pieces(init, quantum);
        let b = pieces(last.start as nat, last.end as nat, quantum);
        let all = all_pieces(chunks, quantum);
        assert(all == a + b);
        assert forall|i: int| 0 <= i < all.len() implies {
            let c = #[trigger] all[i];
            c.start < c.end && c.end - c.start <= quantum
        } by {
            if i < a.len() {
                assert(all[i] == a[i]);
            } else {
                assert(all[i] == b[i - a.len()]);
            }
        }
        if covered(all, p) {
            let i = choose|i: int|
                0 <= i < all.len() && (#[trigger] all[i]).start <= p < all[i].end;
            if i < a.len() {
                assert(a[i].start <= p < a[i].end);
                let j = choose|j: int|
                    0 <= j < init.len() && (#[trigger] init[j]).start <= p < init[j].end;
                assert(chunks[j].start <= p < chunks[j].end);
            } else {
                let c = b[i - a.len()];
                assert(all[i] == c);
                assert(chunks[chunks.len() - 1].start <= p < chunks[chunks.len() - 1].end);
            }
        }
        if covered(chunks, p) {
            let j = choose|j: int|
                0 <= j < chunks.len() && (#[trigger] chunks[j]).start <= p < chunks[j].end;
            if j < init.len() {
                assert(init[j].start <= p < init[j].end);
                let i = choose|i: int|
                    0 <= i < a.len() && (#[trigger] a[i]).start <= p < a[i].end;
                assert(all[i].start <= p < all[i].end);
            } else {
                assert(covered(b, p));
                let i = choose|i: int|
                    0 <= i < b.len() && (#[trigger] b[i]).start <= p < b[i].end;
                assert(all[a.len() + i].start <= p < all[a.len() + i].end);
            }
        }
    }
}

/// Cutting stretches that do not overlap gives jobs that do not overlap.
pub proof fn law_pieces_stay_apart(chunks: Seq<VadBackfillChunk>, quantum: nat)
    requires
        quantum > 0,
        apart(chunks),
    ensures
        apart(all_pieces(chunks, quantum)),
        chunks.len() > 0 ==> within(all_pieces(chunks, quantum), chunks.last().end as nat),
    decreases chunks.len(),
{
    if chunks.len() > 0 {
        let init = chunks.drop_last();
        let last = chunks.last();
        assert(apart(init)) by {
            assert forall|i: int| 0 <= i < init.len() implies (#[trigger] init[i]).start
                < init[i].end by {
                assert(init[i] == chunks[i]);
            }
            assert forall|i: int, j: int| 0 <= i < j < init.len() implies (#[trigger] init[i]).end
                <= (#[trigger] init[j]).start by {
                assert(init[i] == chunks[i] && init[j] == chunks[j]);
            }
        }
        law_pieces_stay_apart(init, quantum);
        lemma_pieces(last.start as nat, last.end as nat, quantum);
        let a = all_pieces(init, quantum);
        let b = pieces(last.start as nat, last.end as nat, quantum);
        let all = all_pieces(chunks, quantum);
        assert(all == a + b);
        assert forall|i: int| 0 <= i < a.len() implies (#[trigger] a[i]).end <= last.start by {
            assert(init.len() > 0);
            assert(init.last() == chunks[chunks.len() - 2]);
            assert(chunks[chunks.len() - 2].end <= chunks[chunks.len() - 1].start);
        }
        assert forall|i: int| 0 <= i < all.len() implies (#[trigger] all[i]).start < all[i].end
            && all[i].end <= last.end by {
            if i < a.len() {
                assert(all[i] == a[i]);
                assert(chunks[chunks.len() - 1].start < chunks[chunks.len() - 1].end);
            } else {
                assert(all[i] == b[i - a.len()]);
            }
        }
        assert forall|i: int, j: int| 0 <= i < j < all.len() implies (#[trigger] all[i]).end <= (
        #[trigger] all[j]).start by {
            if j < a.len() {
                assert(all[i] == a[i] && all[j] == a[j]);
            } else if i < a.len() {
                assert(all[i] == a[i] && all[j] == b[j - a.len()]);
            } else {
                assert(all[i] == b[i - a.len()] && all[j] == b[j - a.len()]);
            }
        }
    }
}

/// The jobs of one stream's history, given what the detector made of it: nothing where
/// nothing was recorded or heard; where the detector could not be had at all, the whole
/// history, cut into pieces.
pub open spec fn history_jobs(
    samples: usize,
    sample_rate: u32,
    t: VadTuning,
    probabilities: Option<Seq<Single>>,
) -> Seq<VadBackfillChunk> {
    if samples == 0 {
        Seq::empty()
    } else {
        match probabilities {
            None => job_pieces(seq![VadBackfillChunk { start: 0, end: samples }], sample_rate),
            Some(p) => if p.len() == 0 {
                Seq::empty()
            } else {
                job_pieces(history_chunks(p, samples, sample_rate, t), sample_rate)
            },
        }
    }
}

/// The jobs of one stream's history.
pub fn vad_chunk_historical_audio(
    samples: usize,
    sample_rate: u32,
    tuning: &VadTuning,
    probabilities: Option<&[Single]>,
) -> (r: Vec<VadBackfillChunk>)
    requires
        tuning.wf(),
    ensures
        r@ == history_jobs(
            samples,
            sample_rate,
            *tuning,
            match probabilities {
                Some(p) => Some(p@),
                None => None,
            },
        ),
{
    if samples == 0 {
        return Vec::new();
    }
    match probabilities {
        None => {
            let mut whole: Vec<VadBackfillChunk> = Vec::new();
            whole.push(VadBackfillChunk { start: 0, end: samples });
            assert(whole@ =~= seq![VadBackfillChunk { start: 0, end: samples }]);
            split_backfill_chunks(whole, sample_rate)
        },
        Some(p) => {
            if p.len() == 0 {
                return Vec::new();
            }
            split_backfill_chunks(
                backfill_chunks_from_probabilities(p, samples, sample_rate, tuning),
                sample_rate,
            )
        },
    }
}

/// Whether position `p` lies in frame `i` of the history.
pub open spec fn in_frame(p: int, i: nat, k: WalkRules) -> bool {
    frame_start(i, k) <= p < frame_end(i, k)
}

/// Whether position `p` is in a chunk already, or in the speech that is still open.
pub open spec fn held(w: Walk, p: int) -> bool {
    covered(w.chunks, p) || (w.speaking && w.speech_start <= p)
}

proof fn lemma_push_covers(chunks: Seq<VadBackfillChunk>, start: nat, end: nat, p: int)
    requires
        start <= usize::MAX,
        end <= usize::MAX,
    ensures
        covered(chunks.push(chunk(start, end)), p) == (covered(chunks, p) || start <= p < end),
{
    let pushed = chunks.push(chunk(start, end));
    if covered(chunks, p) {
        let i = choose|i: int|
            0 <= i < chunks.len() && (#[trigger] chunks[i]).start <= p < chunks[i].end;
        assert(pushed[i] == chunks[i]);
    }
    if start <= p < end {
        assert(pushed[chunks.len() as int] == chunk(start, end));
    }
    if covered(pushed, p) {
        let i = choose|i: int|
            0 <= i < pushed.len() && (#[trigger] pushed[i]).start <= p < pushed[i].end;
        if i < chunks.len() {
            assert(pushed[i] == chunks[i]);
        }
    }
}

proof fn lemma_walk_holds(probs: Seq<Single>, n: nat, k: WalkRules, i: nat, p: int)
    requires
        k.frame > 0,
        k.total <= usize::MAX,
        i < n <= probs.len(),
        in_frame(p, i, k),
        probs[i as int].ge(k.onset),
    ensures
        held(walked(probs, n, k), p),
    decreases n,
{
    let m = (n - 1) as nat;
    let w = walked(probs, m, k);
    lemma_walk_keeps(probs, m, k);
    if i < m {
        lemma_walk_holds(probs, m, k, i, p);
    }
    if frame_start(m, k) < k.total {
        let end = frame_end(m, k);
        assert((m + 1) * k.frame == m * k.frame + k.frame) by (nonlinear_arith);
        assert((i + 1) * k.frame <= (m + 1) * k.frame) by (nonlinear_arith)
            requires
                i <= m,
        ;
        assert(p < end);
        if w.speaking {
            lemma_push_covers(w.chunks, w.speech_start, end, p);
        }
    } else {
        assert(i * k.frame < k.total);
        assert(i != m);
    }
}

/// No speech is left out: every sample of a frame whose probability reached the
/// threshold is in one of the jobs, the end of the history too. Where the detector could
/// not be had, every sample is.
pub proof fn law_history_misses_no_speech(
    samples: usize,
    sample_rate: u32,
    t: VadTuning,
    probabilities: Option<Seq<Single>>,
    i: nat,
    p: int,
)
    requires
        0 <= p < samples,
        probabilities matches Some(probs) ==> {
            &&& i < probs.len()
            &&& in_frame(p, i, rules(samples, sample_rate, t))
            &&& probs[i as int].ge(t.speech_threshold)
        },
    ensures
        covered(history_jobs(samples, sample_rate, t, probabilities), p),
{
    let whole = seq![VadBackfillChunk { start: 0, end: samples }];
    let chunks = match probabilities {
        None => whole,
        Some(probs) => history_chunks(probs, samples, sample_rate, t),
    };
    assert(covered(chunks, p)) by {
        match probabilities {
            None => {
                assert(whole[0].start <= p < whole[0].end);
            },
            Some(probs) => {
                let k = rules(samples, sample_rate, t);
                assert(k.frame > 0) by {
                    if k.frame == 0 {
                        assert((i + 1) * k.frame == 0) by (nonlinear_arith)
                            requires
                                k.frame == 0,
                        ;
                    }
                }
                let w = walked(probs, probs.len(), k);
                lemma_walk_holds(probs, probs.len(), k, i, p);
                lemma_walk_keeps(probs, probs.len(), k);
                if w.speaking {
                    lemma_push_covers(w.chunks, w.speech_start, k.total, p);
                }
            },
        }
    }
    let quantum = quantum_samples(sample_rate);
    if quantum > 0 {
        law_pieces_cover(chunks, quantum, p);
    }
}

// --- What a history is cut by ---

/// A frame lasts 32 milliseconds, a pause as many frames as its length takes, a long chunk
/// as many as fit into its length, and the pre-roll as many samples as its length holds:
/// each to a whole number, and up to two in a million.
pub proof fn law_history_goes_by_time(total: usize, sample_rate: u32, t: VadTuning)
    requires
        t.wf(),
    ensures
        ({
            let k = rules(total, sample_rate, t);
            &&& k.frame * 1000 * 1_000_000 <= 32 * sample_rate * 1_000_002
            &&& 32 * sample_rate * 999_998 < (k.frame + 1) * 1000 * 1_000_000
            &&& k.silence_windows > 0 ==> (k.silence_windows - 1) * 32_000_000 * 999_998
                < t.silence_duration * 1_000_000
            &&& k.silence_windows < usize::MAX ==> t.silence_duration * 999_998
                <= k.silence_windows * 32_000_000 * 1_000_000
            &&& k.max_chunk_windows >= 1
            &&& k.max_chunk_windows == 1 || k.max_chunk_windows * 32_000_000 * 999_998
                <= t.max_chunk_duration * 1_000_000
            &&& k.max_chunk_windows < usize::MAX ==> t.max_chunk_duration * 999_998 < (
            k.max_chunk_windows + 1) * 32_000_000 * 1_000_000
            &&& k.pre_roll * 1_000_000_000 * 999_998 <= t.pre_roll * sample_rate * 1_000_000
            &&& k.pre_roll < usize::MAX ==> t.pre_roll * sample_rate * 999_998 < (k.pre_roll + 1)
                * 1_000_000_000 * 1_000_000
            &&& k.onset == t.speech_threshold && k.offset == t.offset_threshold
            &&& k.total == total
        }),
{
    let k = rules(total, sample_rate, t);
    let secs = (Single { bits: FRAME_DURATION_BITS });
    let frame = (secs.mant(), secs.exp());
    vstd::arithmetic::power2::lemma2_to64();
    assert(frame == (8_589_935nat, -28int));
    let one = vstd::arithmetic::power2::pow2((frame.1 + 28) as nat);
    assert(one == 1);
    assert(frame.0 * one == 8_589_935) by (nonlinear_arith)
        requires
            frame.0 == 8_589_935,
            one == 1,
    ;
    let unit = vstd::arithmetic::power2::pow2(28);
    assert(unit == 268_435_456);
    single::law_frames_of_seconds(frame, sample_rate as nat, 28);
    single::law_steps_of_span(t.silence_duration as nat, frame, 28);
    single::law_steps_of_span(t.max_chunk_duration as nat, frame, 28);
    single::law_frames_of_span(t.pre_roll as nat, sample_rate as nat);
    assert(k.frame < usize::MAX) by {
        assert(k.frame * 268_435_456 * 1_000_000 <= 8_589_935 * 4_294_967_295 * 1_000_001);
    }
}

/// Whether the `n` frames from `from` on are all below the lower threshold.
pub open spec fn quiet(probs: Seq<Single>, from: int, n: int, offset: Single) -> bool {
    forall|i: int| from <= i < from + n ==> !(#[trigger] probs[i]).ge(offset)
}

/// How many quiet frames end a chunk: at least one.
pub open spec fn pause(k: WalkRules) -> nat {
    if k.silence_windows >= 1 {
        k.silence_windows
    } else {
        1
    }
}

/// Why speech began at `start` behind a chunk that ended at `prev_end`, and that it counts
/// from frame `b` on. Either `b` is the first frame behind that chunk that reached the
/// upper threshold, and the start lies back from it by the pre-roll, though not before
/// the end of that chunk; or that chunk was cut right there, in the middle of speech.
pub open spec fn begun(
    probs: Seq<Single>,
    start: nat,
    prev_end: nat,
    b: int,
    k: WalkRules,
) -> bool {
    ||| {
        &&& 0 <= b < probs.len()
        &&& probs[b].ge(k.onset)
        &&& prev_end <= b * k.frame
        &&& start <= b * k.frame
        &&& start >= prev_end && start + k.pre_roll >= b * k.frame
        &&& start == prev_end || start == 0 || start + k.pre_roll == b * k.frame
        &&& forall|g: int|
            0 <= g < b && #[trigger] (g * k.frame) >= prev_end ==> !probs[g].ge(k.onset)
    }
    ||| {
        &&& 0 < b <= probs.len()
        &&& probs[b - 1].ge(k.offset)
        &&& start == prev_end
        &&& start == (if b * k.frame <= k.total {
            b * k.frame
        } else {
            k.total as int
        })
    }
}

/// What holds of speech that counts from frame `b` on and has gone on up to frame `n`: no
/// pause was long enough to end it, and no frame that would have cut it for its length.
pub open spec fn unbroken(probs: Seq<Single>, b: int, n: int, k: WalkRules) -> bool {
    &&& forall|j: int| b < j && j + pause(k) <= n ==> !#[trigger] quiet(
        probs,
        j,
        pause(k) as int,
        k.offset,
    )
    &&& forall|j: int|
        b < j < n && j + 1 - b >= k.max_chunk_windows ==> !(#[trigger] probs[j]).ge(k.offset)
}

proof fn lemma_prev_end(probs: Seq<Single>, n: nat, k: WalkRules)
    requires
        k.frame > 0,
        k.total <= usize::MAX,
    ensures
        ({
            let w = walked(probs, n, k);
            w.prev_end == (if w.chunks.len() > 0 {
                w.chunks.last().end as nat
            } else {
                0
            })
        }),
    decreases n,
{
    if n > 0 {
        lemma_prev_end(probs, (n - 1) as nat, k);
    }
}

proof fn lemma_idle(probs: Seq<Single>, n: nat, k: WalkRules)
    requires
        k.frame > 0,
        k.total <= usize::MAX,
        n <= probs.len(),
        n > 0 ==> (n - 1) * k.frame < k.total,
        !walked(probs, n, k).speaking,
    ensures
        forall|g: int|
            0 <= g < n && #[trigger] (g * k.frame) >= walked(probs, n, k).prev_end
                ==> !probs[g].ge(k.onset),
    decreases n,
{
    if n > 0 {
        let m = (n - 1) as nat;
        let before = walked(probs, m, k);
        let after = walked(probs, n, k);
        assert((m - 1) * k.frame < m * k.frame) by (nonlinear_arith)
            requires
                k.frame > 0,
        ;
        assert((m + 1) * k.frame == m * k.frame + k.frame) by (nonlinear_arith);
        if before.speaking {
            assert(after.prev_end == frame_end(m, k));
            assert forall|g: int|
                0 <= g < n && #[trigger] (g * k.frame) >= after.prev_end implies !probs[g].ge(
                k.onset,
            ) by {
                assert(g * k.frame <= m * k.frame) by (nonlinear_arith)
                    requires
                        g <= m,
                        k.frame > 0,
                ;
            }
        } else {
            lemma_idle(probs, m, k);
        }
    }
}

/// Where open speech began.
proof fn lemma_open(probs: Seq<Single>, n: nat, k: WalkRules) -> (b: int)
    requires
        k.frame > 0,
        k.total <= usize::MAX,
        0 < n <= probs.len(),
        (n - 1) * k.frame < k.total,
        walked(probs, n, k).speaking,
        k.max_chunk_windows >= 1,
    ensures
        ({
            let w = walked(probs, n, k);
            &&& 0 <= b <= n
            &&& begun(probs, w.speech_start, w.prev_end, b, k)
            &&& w.speech_run == n - b
            &&& w.silence_run < pause(k) && w.silence_run <= n - b
            &&& quiet(probs, n - w.silence_run, w.silence_run as int, k.offset)
            &&& n - w.silence_run - 1 > b ==> probs[n - w.silence_run - 1].ge(k.offset)
            &&& unbroken(probs, b, n as int, k)
        }),
    decreases n,
{
    let m = (n - 1) as nat;
    let before = walked(probs, m, k);
    let after = walked(probs, n, k);
    let p = probs[m as int];
    lemma_walk_keeps(probs, m, k);
    assert((m + 1) * k.frame == m * k.frame + k.frame) by (nonlinear_arith);
    assert(frame_start(m, k) == m * k.frame);
    if before.speaking {
        assert(m > 0);
        assert((m - 1) * k.frame < m * k.frame) by (nonlinear_arith)
            requires
                k.frame > 0,
        ;
        let b = lemma_open(probs, m, k);
        if p.ge(k.offset) {
            if before.speech_run + 1 >= k.max_chunk_windows {
                assert(begun(probs, after.speech_start, after.prev_end, n as int, k));
                assert(unbroken(probs, n as int, n as int, k));
                n as int
            } else {
                assert(unbroken(probs, b, n as int, k)) by {
                    assert forall|j: int| b < j && j + pause(k) <= n implies !#[trigger] quiet(
                        probs,
                        j,
                        pause(k) as int,
                        k.offset,
                    ) by {
                        if j + pause(k) == n {
                            assert(j <= m < j + pause(k));
                            assert(probs[m as int].ge(k.offset));
                        }
                    }
                }
                b
            }
        } else {
            let run = before.silence_run;
            assert(after.silence_run == run + 1);
            assert(quiet(probs, n - after.silence_run, after.silence_run as int, k.offset)) by {
                assert forall|i: int| n - after.silence_run <= i < n implies !(
                #[trigger] probs[i]).ge(k.offset) by {
                    if i < m {
                        assert(quiet(probs, m - run, run as int, k.offset));
                    }
                }
            }
            assert(unbroken(probs, b, n as int, k)) by {
                assert forall|j: int| b < j && j + pause(k) <= n implies !#[trigger] quiet(
                    probs,
                    j,
                    pause(k) as int,
                    k.offset,
                ) by {
                    if j + pause(k) == n {
                        let at = m - run - 1;
                        assert(run + 1 < pause(k));
                        assert(b < j <= at < j + pause(k));
                        assert(probs[at].ge(k.offset));
                    }
                }
            }
            b
        }
    } else {
        if m > 0 {
            assert((m - 1) * k.frame < m * k.frame) by (nonlinear_arith)
                requires
                    k.frame > 0,
            ;
        }
        lemma_idle(probs, m, k);
        assert(begun(probs, after.speech_start, after.prev_end, m as int, k));
        m as int
    }
}

/// Where a chunk of the walk began, and the frame that ended it.
proof fn lemma_chunk_of_walk(probs: Seq<Single>, n: nat, k: WalkRules, c: int) -> (r: (int, int))
    requires
        k.frame > 0,
        k.total <= usize::MAX,
        n <= probs.len(),
        n > 0 ==> (n - 1) * k.frame < k.total,
        0 <= c < walked(probs, n, k).chunks.len(),
        k.max_chunk_windows >= 1,
    ensures
        ({
            let chunks = walked(probs, n, k).chunks;
            let (b, g) = r;
            let prev_end: nat = if c > 0 {
                chunks[c - 1].end as nat
            } else {
                0
            };
            &&& begun(probs, chunks[c].start as nat, prev_end, b, k)
            &&& b <= g < n
            &&& chunks[c].end == frame_end(g as nat, k)
            &&& unbroken(probs, b, g, k)
            &&& (probs[g].ge(k.offset) && g + 1 - b >= k.max_chunk_windows) || (quiet(
                probs,
                g + 1 - pause(k),
                pause(k) as int,
                k.offset,
            ) && g + 1 - pause(k) >= b)
            &&& probs[g].ge(k.offset) ==> if c + 1 < chunks.len() {
                chunks[c + 1].start == chunks[c].end
            } else {
                walked(probs, n, k).speaking && walked(probs, n, k).speech_start == chunks[c].end
            }
        }),
    decreases n,
{
    let m = (n - 1) as nat;
    let before = walked(probs, m, k);
    let after = walked(probs, n, k);
    let p = probs[m as int];
    lemma_walk_keeps(probs, m, k);
    assert((m + 1) * k.frame == m * k.frame + k.frame) by (nonlinear_arith);
    if m > 0 {
        assert((m - 1) * k.frame < m * k.frame) by (nonlinear_arith)
            requires
                k.frame > 0,
        ;
    }
    if c < before.chunks.len() {
        assert(after.chunks[c] == before.chunks[c]);
        if c > 0 {
            assert(after.chunks[c - 1] == before.chunks[c - 1]);
        }
        if c + 1 < before.chunks.len() {
            assert(after.chunks[c + 1] == before.chunks[c + 1]);
        }
        lemma_chunk_of_walk(probs, m, k, c)
    } else {
        assert(before.speaking);
        assert(m > 0);
        let b = lemma_open(probs, m, k);
        lemma_prev_end(probs, m, k);
        if c > 0 {
            assert(after.chunks[c - 1] == before.chunks.last());
        }
        if !p.ge(k.offset) {
            let run = before.silence_run;
            assert(run + 1 == pause(k));
            assert(quiet(probs, m + 1 - pause(k), pause(k) as int, k.offset)) by {
                assert forall|i: int| m - run <= i < m + 1 implies !(#[trigger] probs[i]).ge(
                    k.offset,
                ) by {
                    if i < m {
                        assert(quiet(probs, m - run, run as int, k.offset));
                    }
                }
            }
        }
        (b, m as int)
    }
}

/// How many frames of a history count: those that begin within it.
proof fn lemma_frames_counted(probs: Seq<Single>, k: WalkRules) -> (n: nat)
    requires
        k.frame > 0,
        k.total > 0,
        probs.len() > 0,
    ensures
        0 < n <= probs.len(),
        (n - 1) * k.frame < k.total,
        n == probs.len() || n * k.frame >= k.total,
        walked(probs, n, k) == walked(probs, probs.len(), k),
{
    lemma_frames_counted_from(probs, probs.len(), k)
}

proof fn lemma_frames_counted_from(probs: Seq<Single>, m: nat, k: WalkRules) -> (n: nat)
    requires
        k.frame > 0,
        k.total > 0,
        0 < m <= probs.len(),
        m == probs.len() || m * k.frame >= k.total,
    ensures
        0 < n <= m,
        (n - 1) * k.frame < k.total,
        n == probs.len() || n * k.frame >= k.total,
        walked(probs, n, k) == walked(probs, m, k),
    decreases m,
{
    if (m - 1) * k.frame < k.total {
        m
    } else {
        assert(m > 1) by {
            if m == 1 {
                assert((m - 1) * k.frame == 0) by (nonlinear_arith)
                    requires
                        m == 1,
                ;
            }
        }
        assert(frame_start((m - 1) as nat, k) >= k.total);
        lemma_frames_counted_from(probs, (m - 1) as nat, k)
    }
}

/// Every chunk of a history is one of speech. It begins with a frame that reached the upper
/// threshold, the first one behind the chunk before it, with the pre-roll in front; or
/// right where that chunk was cut in the middle of speech. It ends with a pause, with a
/// frame of speech that makes it as long as a chunk may be, or with the history; and at
/// the first of these: neither a pause nor such a frame lies before. What is cut in the
/// middle of speech goes on with the next chunk. `r` is the frame that it counts from, and
/// the last one.
pub proof fn law_history_chunk_is_speech(
    probs: Seq<Single>,
    total: usize,
    sample_rate: u32,
    t: VadTuning,
    c: int,
) -> (r: (int, int))
    requires
        0 <= c < history_chunks(probs, total, sample_rate, t).len(),
    ensures
        ({
            let chunks = history_chunks(probs, total, sample_rate, t);
            let k = rules(total, sample_rate, t);
            let (b, g) = r;
            let prev_end: nat = if c > 0 {
                chunks[c - 1].end as nat
            } else {
                0
            };
            &&& begun(probs, chunks[c].start as nat, prev_end, b, k)
            &&& b <= g + 1 && 0 <= g < probs.len()
            &&& g * k.frame < chunks[c].end
            &&& chunks[c].end == total || chunks[c].end == (g + 1) * k.frame
            &&& unbroken(probs, b, g, k)
            &&& {
                ||| probs[g].ge(t.offset_threshold) && g + 1 - b >= k.max_chunk_windows
                ||| quiet(probs, g + 1 - pause(k), pause(k) as int, t.offset_threshold) && g + 1
                    - pause(k) >= b
                ||| c == chunks.len() - 1 && chunks[c].end == total && (g == probs.len() - 1 || (g
                    + 1) * k.frame >= total)
            }
            &&& probs[g].ge(t.offset_threshold) && chunks[c].end < total ==> c + 1 < chunks.len()
                && chunks[c + 1].start == chunks[c].end
        }),
{
    let k = rules(total, sample_rate, t);
    let n = lemma_frames_counted(probs, k);
    let w = walked(probs, n, k);
    lemma_walk_keeps(probs, n, k);
    let chunks = history_chunks(probs, total, sample_rate, t);
    assert(n * k.frame == (n - 1) * k.frame + k.frame) by (nonlinear_arith);
    if c < w.chunks.len() {
        assert(chunks[c] == w.chunks[c]);
        if c > 0 {
            assert(chunks[c - 1] == w.chunks[c - 1]);
        }
        if c + 1 < w.chunks.len() {
            assert(chunks[c + 1] == w.chunks[c + 1]);
        }
        let (b, g) = lemma_chunk_of_walk(probs, n, k, c);
        assert(g * k.frame < k.total && g * k.frame < (g + 1) * k.frame) by (nonlinear_arith)
            requires
                g <= n - 1,
                (n - 1) * k.frame < k.total,
                k.frame > 0,
        ;
        (b, g)
    } else {
        assert(w.speaking);
        let b = lemma_open(probs, n, k);
        lemma_prev_end(probs, n, k);
        if c > 0 {
            assert(chunks[c - 1] == w.chunks.last());
        }
        (b, n - 1)
    }
}

proof fn lemma_pause_silences(probs: Seq<Single>, a: nat, n: nat, k: WalkRules)
    requires
        k.frame > 0,
        k.total <= usize::MAX,
        k.max_chunk_windows >= 1,
        a < n <= probs.len(),
        (n - 1) * k.frame < k.total,
        quiet(probs, a as int, n - a, k.offset),
        forall|g: int| a <= g < n ==> !(#[trigger] probs[g]).ge(k.onset),
    ensures
        walked(probs, n, k).speaking ==> walked(probs, n, k).silence_run >= n - a,
    decreases n,
{
    let m = (n - 1) as nat;
    assert(!probs[m as int].ge(k.offset));
    assert(!probs[m as int].ge(k.onset));
    if a < m {
        assert((m - 1) * k.frame < m * k.frame) by (nonlinear_arith)
            requires
                k.frame > 0,
        ;
        lemma_pause_silences(probs, a, m, k);
    }
}

/// What the walk holds of a sample stays out, as long as no frame whose pre-roll reaches it
/// begins speech.
proof fn lemma_stays_out(probs: Seq<Single>, a: nat, n: nat, k: WalkRules, p: int)
    requires
        k.frame > 0,
        k.total <= usize::MAX,
        k.max_chunk_windows >= 1,
        a + pause(k) <= n <= probs.len(),
        (n - 1) * k.frame < k.total,
        (a + pause(k)) * k.frame <= p < k.total,
        quiet(probs, a as int, pause(k) as int, k.offset),
        forall|g: int|
            a <= g < probs.len() && #[trigger] (g * k.frame) <= p + k.pre_roll ==> !probs[g].ge(
                k.onset,
            ),
    ensures
        !held(walked(probs, n, k), p),
        walked(probs, n, k).speaking ==> walked(probs, n, k).speech_start > p,
    decreases n,
{
    let s = pause(k);
    let m = (n - 1) as nat;
    let w = walked(probs, n, k);
    lemma_walk_keeps(probs, n, k);
    lemma_walk_keeps(probs, m, k);
    assert((m + 1) * k.frame == m * k.frame + k.frame) by (nonlinear_arith);
    if n == a + s {
        assert forall|g: int| a <= g < n implies !(#[trigger] probs[g]).ge(k.onset) by {
            assert(g * k.frame <= n * k.frame) by (nonlinear_arith)
                requires
                    g <= n,
                    k.frame > 0,
            ;
            assert(g * k.frame <= p + k.pre_roll);
        }
        lemma_pause_silences(probs, a, n, k);
        if w.speaking {
            let b = lemma_open(probs, n, k);
            assert(false);
        }
        assert(within(w.chunks, w.prev_end));
        assert(w.prev_end <= p);
        assert(!covered(w.chunks, p));
    } else {
        assert((m - 1) * k.frame < m * k.frame) by (nonlinear_arith)
            requires
                k.frame > 0,
        ;
        lemma_stays_out(probs, a, m, k, p);
        let before = walked(probs, m, k);
        let end = frame_end(m, k);
        if before.speaking {
            lemma_push_covers(before.chunks, before.speech_start, end, p);
        } else if probs[m as int].ge(k.onset) {
            assert(m * k.frame > p + k.pre_roll);
        }
    }
}

/// Silence is not sent: a sample behind a pause, the frames of which are all below the
/// lower threshold, is in no job, unless a frame that reaches the upper threshold follows
/// so soon that its pre-roll reaches back to the sample. The pause is as many frames of
/// 32 milliseconds as its length takes, the pre-roll as many samples as its length holds,
/// both up to two in a million; `frames` and `reach` may be any numbers that are enough.
pub proof fn law_silence_is_not_sent(
    probs: Seq<Single>,
    total: usize,
    sample_rate: u32,
    t: VadTuning,
    a: nat,
    frames: nat,
    reach: nat,
    p: int,
)
    requires
        t.wf(),
        a + frames <= probs.len(),
        1 <= frames < usize::MAX,
        frames * 32_000_000 * 999_998 >= t.silence_duration * 1_000_000,
        reach < usize::MAX,
        reach * 1_000_000_000 * 999_998 >= t.pre_roll * sample_rate * 1_000_000,
        (a + frames) * frame_samples(sample_rate) <= p < total,
        forall|i: int| a <= i < a + frames ==> !(#[trigger] probs[i]).ge(t.offset_threshold),
        forall|i: int|
            a <= i < probs.len() && #[trigger] (i * frame_samples(sample_rate)) <= p + reach
                ==> !probs[i].ge(t.speech_threshold),
    ensures
        !covered(history_chunks(probs, total, sample_rate, t), p),
        !covered(history_jobs(total, sample_rate, t, Some(probs)), p),
{
    let k = rules(total, sample_rate, t);
    law_history_goes_by_time(total, sample_rate, t);
    assert(pause(k) <= frames) by {
        if k.silence_windows > frames {
            assert((k.silence_windows - 1) * 32_000_000 * 999_998 >= frames * 32_000_000 * 999_998);
        }
    }
    assert(k.pre_roll <= reach);
    let chunks = history_chunks(probs, total, sample_rate, t);
    if k.frame > 0 {
        let s = pause(k);
        let n = lemma_frames_counted(probs, k);
        assert((a + s) * k.frame <= (a + frames) * k.frame) by (nonlinear_arith)
            requires
                s <= frames,
                k.frame >= 0,
        ;
        assert(quiet(probs, a as int, s as int, k.offset));
        assert(n >= a + s) by {
            if n < a + s {
                assert(n * k.frame <= (a + s) * k.frame) by (nonlinear_arith)
                    requires
                        n <= a + s,
                        k.frame >= 0,
                ;
            }
        }
        lemma_stays_out(probs, a, n, k, p);
        lemma_walk_keeps(probs, n, k);
        let w = walked(probs, n, k);
        if w.speaking {
            lemma_push_covers(w.chunks, w.speech_start, k.total, p);
        }
    }
    let quantum = quantum_samples(sample_rate);
    if quantum > 0 {
        law_pieces_cover(chunks, quantum, p);
    }
}

/// A history job holds five seconds, up to one in a million, or is the last piece of its
/// stretch; and a job begins where a stretch does, or where the piece before it ended.
pub proof fn law_pieces_are_full(
    chunks: Seq<VadBackfillChunk>,
    sample_rate: u32,
    i: int,
) -> (j: int)
    requires
        quantum_samples(sample_rate) > 0,
        0 <= i < job_pieces(chunks, sample_rate).len(),
    ensures
        ({
            let jobs = job_pieces(chunks, sample_rate);
            let n = quantum_samples(sample_rate);
            &&& n * 1_000_000 <= 5 * sample_rate * 1_000_001
            &&& n < usize::MAX ==> 5 * sample_rate * 999_999 < (n + 1) * 1_000_000
            &&& 0 <= j < chunks.len()
            &&& chunks[j].start <= jobs[i].start && jobs[i].end <= chunks[j].end
            &&& jobs[i].end == chunks[j].end || jobs[i].end - jobs[i].start == n
            &&& jobs[i].start == chunks[j].start || (i > 0 && jobs[i - 1].end == jobs[i].start)
        }),
{
    let secs = (Single { bits: BACKFILL_JOB_QUANTUM_BITS });
    let five = (secs.mant(), secs.exp());
    vstd::arithmetic::power2::lemma2_to64();
    assert(five == (10_485_760nat, -21int));
    single::law_frames_of_seconds(five, sample_rate as nat, 21);
    let one = vstd::arithmetic::power2::pow2((five.1 + 21) as nat);
    assert(one == 1);
    assert(five.0 * one == 10_485_760) by (nonlinear_arith)
        requires
            five.0 == 10_485_760,
            one == 1,
    ;
    lemma_all_pieces_full(chunks, quantum_samples(sample_rate), i)
}

proof fn lemma_pieces_full(start: nat, end: nat, quantum: nat, i: int)
    requires
        quantum > 0,
        end <= usize::MAX,
        0 <= i < pieces(start, end, quantum).len(),
    ensures
        ({
            let all = pieces(start, end, quantum);
            &&& all[i].end == end || all[i].end - all[i].start == quantum
            &&& if i == 0 {
                all[i].start == start
            } else {
                all[i].start == all[i - 1].end
            }
        }),
    decreases end - start,
{
    let next: nat = if end - start <= quantum {
        end
    } else {
        start + quantum
    };
    let rest = pieces(next, end, quantum);
    let all = pieces(start, end, quantum);
    assert(all =~= seq![chunk(start, next)] + rest);
    if i > 0 {
        assert(all[i] == rest[i - 1]);
        lemma_pieces_full(next, end, quantum, i - 1);
        if i > 1 {
            assert(all[i - 1] == rest[i - 2]);
        }
    }
}

proof fn lemma_all_pieces_full(chunks: Seq<VadBackfillChunk>, quantum: nat, i: int) -> (j: int)
    requires
        quantum > 0,
        0 <= i < all_pieces(chunks, quantum).len(),
    ensures
        ({
            let jobs = all_pieces(chunks, quantum);
            &&& 0 <= j < chunks.len()
            &&& chunks[j].start <= jobs[i].start && jobs[i].end <= chunks[j].end
            &&& jobs[i].end == chunks[j].end || jobs[i].end - jobs[i].start == quantum
            &&& jobs[i].start == chunks[j].start || (i > 0 && jobs[i - 1].end == jobs[i].start)
        }),
    decreases chunks.len(),
{
    let init = chunks.drop_last();
    let last = chunks.last();
    let a = all_pieces(init, quantum);
    let b = pieces(last.start as nat, last.end as nat, quantum);
    let jobs = all_pieces(chunks, quantum);
    assert(jobs == a + b);
    if i < a.len() {
        let j = lemma_all_pieces_full(init, quantum, i);
        assert(jobs[i] == a[i]);
        if i > 0 {
            assert(jobs[i - 1] == a[i - 1]);
        }
        j
    } else {
        let m = i - a.len();
        lemma_pieces_full(last.start as nat, last.end as nat, quantum, m);
        lemma_pieces(last.start as nat, last.end as nat, quantum);
        assert(jobs[i] == b[m]);
        if m > 0 {
            assert(jobs[i - 1] == b[m - 1]);
        }
        chunks.len() - 1
    }
}

// --- The order of history jobs ---

/// One job of the history: which stream, and which of its chunks.
#[derive(Clone, Copy, Debug, PartialEq, Eq, Structural)]
pub struct BackfillJob {
    pub source: usize,
    pub chunk: usize,
}

/// The jobs of one round: chunk `c` of each of the first `n` streams that has one.
pub open spec fn round(counts: Seq<usize>, c: nat, n: nat) -> Seq<BackfillJob>
    decreases n,
{
    if n == 0 {
        Seq::empty()
    } else {
        let before = round(counts, c, (n - 1) as nat);
        if counts[n - 1] > c {
            before.push(BackfillJob { source: (n - 1) as usize, chunk: c as usize })
        } else {
            before
        }
    }
}

/// The jobs of the first `c` rounds.
pub open spec fn rounds(counts: Seq<usize>, c: nat) -> Seq<BackfillJob>
    decreases c,
{
    if c == 0 {
        Seq::empty()
    } else {
        rounds(counts, (c - 1) as nat) + round(counts, (c - 1) as nat, counts.len())
    }
}

/// The most chunks that one of the first `n` streams has.
pub open spec fn most(counts: Seq<usize>, n: nat) -> nat
    decreases n,
{
    if n == 0 {
        0
    } else if counts[n - 1] > most(counts, (n - 1) as nat) {
        counts[n - 1] as nat
    } else {
        most(counts, (n - 1) as nat)
    }
}

/// The jobs of a history in the order in which they are sent: the first chunk of every
/// stream, then the second of every stream, and so on, so that the streams stay side
/// by side in time.
pub fn backfill_order(counts: &[usize]) -> (r: Vec<BackfillJob>)
    ensures
        r@ == rounds(counts@, most(counts@, counts@.len())),
{
    let mut total: usize = 0;
    let mut i: usize = 0;
    while i < counts.len()
        invariant
            i <= counts@.len(),
            total == most(counts@, i as nat),
        decreases counts@.len() - i,
    {
        if counts[i] > total {
            total = counts[i];
        }
        i = i + 1;
    }
    let mut out: Vec<BackfillJob> = Vec::new();
    let mut c: usize = 0;
    while c < total
        invariant
            c <= total,
            out@ == rounds(counts@, c as nat),
        decreases total - c,
    {
        let ghost held = out@;
        let mut s: usize = 0;
        assert(held + Seq::<BackfillJob>::empty() =~= held);
        while s < counts.len()
            invariant
                s <= counts@.len(),
                out@ == held + round(counts@, c as nat, s as nat),
            decreases counts@.len() - s,
        {
            if counts[s] > c {
                let ghost before = out@;
                out.push(BackfillJob { source: s, chunk: c });
                assert(out@ =~= held + round(counts@, c as nat, (s + 1) as nat));
            }
            s = s + 1;
        }
        c = c + 1;
    }
    out
}

proof fn lemma_round(counts: Seq<usize>, c: nat, n: nat, job: BackfillJob)
    requires
        n <= counts.len(),
        counts.len() <= usize::MAX,
        c <= usize::MAX,
    ensures
        round(counts, c, n).contains(job) <==> job.source < n && job.chunk == c
            && counts[job.source as int] > c,
    decreases n,
{
    if n > 0 {
        lemma_round(counts, c, (n - 1) as nat, job);
        let before = round(counts, c, (n - 1) as nat);
        let last = BackfillJob { source: (n - 1) as usize, chunk: c as usize };
        if counts[n - 1] > c {
            let all = before.push(last);
            if all.contains(job) {
                let i = choose|i: int| 0 <= i < all.len() && all[i] == job;
                if i < before.len() {
                    assert(before[i] == job);
                }
            }
            if before.contains(job) {
                let i = choose|i: int| 0 <= i < before.len() && before[i] == job;
                assert(all[i] == job);
            }
            assert(all[before.len() as int] == last);
        }
    }
}

proof fn lemma_rounds(counts: Seq<usize>, c: nat, job: BackfillJob)
    requires
        counts.len() <= usize::MAX,
        c <= usize::MAX,
    ensures
        rounds(counts, c).contains(job) <==> job.source < counts.len() && job.chunk < c
            && job.chunk < counts[job.source as int],
    decreases c,
{
    if c > 0 {
        lemma_rounds(counts, (c - 1) as nat, job);
        lemma_round(counts, (c - 1) as nat, counts.len(), job);
        let a = rounds(counts, (c - 1) as nat);
        let b = round(counts, (c - 1) as nat, counts.len());
        let all = a + b;
        if all.contains(job) {
            let i = choose|i: int| 0 <= i < all.len() && all[i] == job;
            if i < a.len() {
                assert(a[i] == job);
            } else {
                assert(b[i - a.len()] == job);
            }
        }
        if a.contains(job) {
            let i = choose|i: int| 0 <= i < a.len() && a[i] == job;
            assert(all[i] == job);
        }
        if b.contains(job) {
            let i = choose|i: int| 0 <= i < b.len() && b[i] == job;
            assert(all[a.len() + i] == job);
        }
    }
}

proof fn lemma_round_sorted(counts: Seq<usize>, c: nat, n: nat, i: int, j: int)
    requires
        n <= counts.len(),
        counts.len() <= usize::MAX,
        c <= usize::MAX,
        0 <= i < j < round(counts, c, n).len(),
    ensures
        round(counts, c, n)[i].source < round(counts, c, n)[j].source,
    decreases n,
{
    let before = round(counts, c, (n - 1) as nat);
    if j < before.len() {
        lemma_round_sorted(counts, c, (n - 1) as nat, i, j);
    } else {
        lemma_round(counts, c, (n - 1) as nat, before[i]);
        assert(before.contains(before[i]));
    }
}

proof fn lemma_most(counts: Seq<usize>, n: nat, i: int)
    requires
        0 <= i < n <= counts.len(),
    ensures
        counts[i] <= most(counts, n) <= usize::MAX,
    decreases n,
{
    reveal_with_fuel(most, 2);
    if i < n - 1 {
        lemma_most(counts, (n - 1) as nat, i);
    } else if n > 1 {
        lemma_most(counts, (n - 1) as nat, 0);
    }
}

/// Every chunk of every stream is sent, and nothing else is.
pub proof fn law_order_is_complete(counts: Seq<usize>, job: BackfillJob)
    requires
        counts.len() <= usize::MAX,
    ensures
        rounds(counts, most(counts, counts.len())).contains(job) <==> job.source < counts.len()
            && job.chunk < counts[job.source as int],
{
    if counts.len() > 0 {
        lemma_most(counts, counts.len(), 0);
        if job.source < counts.len() {
            lemma_most(counts, counts.len(), job.source as int);
        }
    }
    lemma_rounds(counts, most(counts, counts.len()), job);
}

/// The jobs are sent round by round, within a round stream by stream; so none is sent
/// twice.
pub proof fn law_order_is_sorted(counts: Seq<usize>, c: nat, i: int, j: int)
    requires
        counts.len() <= usize::MAX,
        c <= usize::MAX,
        0 <= i < j < rounds(counts, c).len(),
    ensures
        ({
            let a = rounds(counts, c)[i];
            let b = rounds(counts, c)[j];
            a.chunk < b.chunk || (a.chunk == b.chunk && a.source < b.source)
        }),
    decreases c,
{
    let a = rounds(counts, (c - 1) as nat);
    let b = round(counts, (c - 1) as nat, counts.len());
    let all = rounds(counts, c);
    assert(all == a + b);
    if j < a.len() {
        law_order_is_sorted(counts, (c - 1) as nat, i, j);
    } else if i < a.len() {
        lemma_rounds(counts, (c - 1) as nat, a[i]);
        assert(a.contains(a[i]));
        lemma_round(counts, (c - 1) as nat, counts.len(), b[j - a.len()]);
        assert(b.contains(b[j - a.len()]));
    } else {
        lemma_round(counts, (c - 1) as nat, counts.len(), b[i - a.len()]);
        assert(b.contains(b[i - a.len()]));
        lemma_round(counts, (c - 1) as nat, counts.len(), b[j - a.len()]);
        assert(b.contains(b[j - a.len()]));
        lemma_round_sorted(counts, (c - 1) as nat, counts.len(), i - a.len(), j - a.len());
    }
}

} // verus!
