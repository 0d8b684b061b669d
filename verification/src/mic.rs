//! Who owns the microphone: the windows of the recording that belong to dictation.
//!
//! While a dictation runs beside a session, what the microphone picks up is the
//! dictation's and must not enter the session's transcript or its file. Each
//! dictation leaves a window of buffer positions. The session cuts its chunks around the
//! windows, silences them in its file, and drops those that it has left behind.

use std::collections::VecDeque;

use vstd::prelude::*;

verus! {

/// A range of microphone positions, from `start` up to, not counting, `end`.
#[derive(Clone, Copy, Debug, PartialEq, Eq, Structural)]
pub struct MicWindow {
    pub start: u64,
    pub end: u64,
}

impl MicWindow {
    /// Whether the window has a position in common with `other_start..other_end`.
    pub open spec fn meets(self, other_start: u64, other_end: u64) -> bool {
        self.start < other_end && self.end > other_start
    }

    /// Whether the window has a position in common with `other_start..other_end`.
    pub fn overlaps(&self, other_start: u64, other_end: u64) -> (r: bool)
        ensures
            r == self.meets(other_start, other_end),
            r <==> self.start < other_end && self.end > other_start,
    {
        self.start < other_end && self.end > other_start
    }
}

/// A range of samples of one channel, by their index.
#[derive(Clone, Copy, Debug, PartialEq, Eq, Structural)]
pub struct SampleRange {
    pub start: usize,
    pub end: usize,
}

/// Whether one of the ranges holds sample `k`.
pub open spec fn in_samples(ranges: Seq<SampleRange>, k: int) -> bool {
    exists|i: int| 0 <= i < ranges.len() && (#[trigger] ranges[i]).start <= k < ranges[i].end
}

/// Whether sample `k` of what was read from `start` on holds a position of dictation:
/// with `channels` channels a sample takes as many positions.
pub open spec fn sample_held(
    open: Option<u64>,
    closed: Seq<MicWindow>,
    start: u64,
    channels: u16,
    k: int,
) -> bool {
    exists|p: int|
        start + k * channels <= p < start + (k + 1) * channels && #[trigger] held(open, closed, p)
}

/// The open window, if dictation owns the microphone now, and the closed ones that
/// some reader has not passed yet.
pub struct DictationMicState {
    pub open: Option<u64>,
    pub closed: VecDeque<MicWindow>,
}

/// Whether `start..end` meets a window: the open one reaches without limit.
pub open spec fn owned(open: Option<u64>, closed: Seq<MicWindow>, start: u64, end: u64) -> bool {
    ||| open matches Some(from) && from < end
    ||| exists|i: int| 0 <= i < closed.len() && (#[trigger] closed[i]).meets(start, end)
}

/// Whether one of the windows holds position `p`.
pub open spec fn in_windows(windows: Seq<MicWindow>, p: int) -> bool {
    exists|i: int| 0 <= i < windows.len() && (#[trigger] windows[i]).start <= p < windows[i].end
}

/// Whether position `p` belongs to dictation: the open window reaches without limit.
pub open spec fn held(open: Option<u64>, closed: Seq<MicWindow>, p: int) -> bool {
    ||| open matches Some(from) && from <= p
    ||| in_windows(closed, p)
}

/// Whether `p` is the first position from `from` on that belongs to dictation.
pub open spec fn is_next_held(open: Option<u64>, closed: Seq<MicWindow>, from: int, p: int) -> bool {
    &&& from <= p
    &&& held(open, closed, p)
    &&& forall|q: int| from <= q < p ==> !#[trigger] held(open, closed, q)
}

/// The first position from `from` on that belongs to dictation.
pub open spec fn next_held(open: Option<u64>, closed: Seq<MicWindow>, from: int) -> Option<int> {
    if exists|p: int| is_next_held(open, closed, from, p) {
        Some(choose|p: int| is_next_held(open, closed, from, p))
    } else {
        None
    }
}

/// Whether `p` is the first position from `from` on that does not belong to dictation.
pub open spec fn is_next_free(open: Option<u64>, closed: Seq<MicWindow>, from: int, p: int) -> bool {
    &&& from <= p
    &&& !held(open, closed, p)
    &&& forall|q: int| from <= q < p ==> #[trigger] held(open, closed, q)
}

/// The first position from `from` on that does not belong to dictation.
pub open spec fn next_free(open: Option<u64>, closed: Seq<MicWindow>, from: int) -> Option<int> {
    if exists|p: int| is_next_free(open, closed, from, p) {
        Some(choose|p: int| is_next_free(open, closed, from, p))
    } else {
        None
    }
}

/// Whether ranges follow one another, none is empty, and all lie in `from..to`.
pub open spec fn ranged(ranges: Seq<MicWindow>, from: u64, to: u64) -> bool {
    &&& chronological(None, ranges)
    &&& forall|i: int|
        0 <= i < ranges.len() ==> from <= (#[trigger] ranges[i]).start && ranges[i].end <= to
}

/// `closed` without the leading windows that end at or before `min_pos`.
pub open spec fn unpassed(closed: Seq<MicWindow>, min_pos: u64) -> Seq<MicWindow>
    decreases closed.len(),
{
    if closed.len() > 0 && closed[0].end <= min_pos {
        unpassed(closed.drop_first(), min_pos)
    } else {
        closed
    }
}

/// Whether the windows follow one another in time: none is empty, each begins where
/// the one before has ended, and the open one begins after all of them.
pub open spec fn chronological(open: Option<u64>, closed: Seq<MicWindow>) -> bool {
    &&& forall|i: int| 0 <= i < closed.len() ==> (#[trigger] closed[i]).start < closed[i].end
    &&& forall|i: int, j: int|
        0 <= i < j < closed.len() ==> (#[trigger] closed[i]).end <= (#[trigger] closed[j]).start
    &&& open matches Some(from) ==> forall|i: int|
        0 <= i < closed.len() ==> (#[trigger] closed[i]).end <= from
}

impl DictationMicState {
    /// No window, open or closed.
    pub fn new() -> (r: Self)
        ensures
            r.open is None,
            r.closed@.len() == 0,
    {
        DictationMicState { open: None, closed: VecDeque::new() }
    }
}

impl Default for DictationMicState {
    fn default() -> (r: Self)
        ensures
            r.open is None,
            r.closed@.len() == 0,
    {
        DictationMicState::new()
    }
}

/// The microphone's ownership, shared by a session and a dictation.
pub struct DictationOwnsMic {
    state: DictationMicState,
}

impl DictationOwnsMic {
    /// Where the open window begins.
    pub closed spec fn since(self) -> Option<u64> {
        self.state.open
    }

    /// The closed windows, in the order in which they were closed.
    pub closed spec fn windows(self) -> Seq<MicWindow> {
        self.state.closed@
    }

    /// Whether the windows follow one another in time.
    pub open spec fn in_order(self) -> bool {
        chronological(self.since(), self.windows())
    }

    /// Nobody owns the microphone and nobody did.
    pub fn new() -> (r: Self)
        ensures
            r.since() is None,
            r.windows().len() == 0,
            r.in_order(),
    {
        DictationOwnsMic { state: DictationMicState::new() }
    }

    /// Dictation takes the microphone at `start`.
    pub fn open(&mut self, start: u64) -> (r: u64)
        ensures
            r == start,
            final(self).since() == Some(start),
            final(self).windows() == old(self).windows(),
            old(self).in_order() && (forall|i: int|
                0 <= i < old(self).windows().len() ==> (#[trigger] old(self).windows()[i]).end
                    <= start) ==> final(self).in_order(),
    {
        self.state.open = Some(start);
        start
    }

    /// Dictation gives the microphone back at `end`. Without an open window nothing
    /// happens; a window without positions is not kept.
    pub fn close(&mut self, end: u64)
        ensures
            final(self).since() is None,
            final(self).windows() == (match old(self).since() {
                Some(start) if end > start => old(self).windows().push(MicWindow { start, end }),
                _ => old(self).windows(),
            }),
            old(self).in_order() ==> final(self).in_order(),
    {
        if let Some(start) = self.state.open {
            if end > start {
                self.state.closed.push_back(MicWindow { start, end });
            }
        }
        self.state.open = None;
    }

    /// The microphone records into a new buffer, whose positions begin anew: windows of the
    /// old one are gone, and a dictation that has the microphone has it from the start.
    pub fn buffer_replaced(&mut self)
        ensures
            final(self).since() == (match old(self).since() {
                Some(_) => Some(0u64),
                None => None,
            }),
            final(self).windows().len() == 0,
            final(self).in_order(),
    {
        if self.state.open.is_some() {
            self.state.open = Some(0);
        }
        self.state.closed.clear();
    }

    /// Forgets every window.
    pub fn clear_for_session(&mut self)
        ensures
            final(self).since() is None,
            final(self).windows().len() == 0,
            final(self).in_order(),
    {
        self.state.open = None;
        self.state.closed.clear();
    }

    /// Forgets the open window without keeping it.
    pub fn clear_open(&mut self)
        ensures
            final(self).since() is None,
            final(self).windows() == old(self).windows(),
            old(self).in_order() ==> final(self).in_order(),
    {
        self.state.open = None;
    }

    /// Drops the leading closed windows that end at or before `min_pos`.
    pub fn prune_before(&mut self, min_pos: u64)
        ensures
            final(self).since() == old(self).since(),
            final(self).windows() == unpassed(old(self).windows(), min_pos),
            old(self).in_order() ==> final(self).in_order(),
    {
        proof {
            lemma_unpassed_in_order(self.state.open, self.state.closed@, min_pos);
        }
        let ghost start = self.state.closed@;
        while self.state.closed.len() > 0 && self.state.closed[0].end <= min_pos
            invariant
                unpassed(start, min_pos) == unpassed(self.state.closed@, min_pos),
                self.state.open == old(self).state.open,
            decreases self.state.closed@.len(),
        {
            let ghost before = self.state.closed@;
            let _ = self.state.closed.pop_front();
            assert(self.state.closed@ =~= before.drop_first());
        }
    }

    /// The windows as they are now.
    pub fn snapshot(&self) -> (r: DictationMicSnapshot)
        ensures
            r.open == self.since(),
            r.closed@ == self.windows(),
    {
        let closed = self.state.closed.clone();
        assert(closed@ =~= self.state.closed@);
        DictationMicSnapshot { open: self.state.open, closed }
    }
}

impl Default for DictationOwnsMic {
    fn default() -> (r: Self)
        ensures
            r.since() is None,
            r.windows().len() == 0,
    {
        DictationOwnsMic::new()
    }
}

/// The windows at one moment.
pub struct DictationMicSnapshot {
    pub open: Option<u64>,
    pub closed: VecDeque<MicWindow>,
}

impl DictationMicSnapshot {
    /// Whether `start..end` meets a window, open or closed.
    pub fn overlaps(&self, start: u64, end: u64) -> (r: bool)
        ensures
            r == owned(self.open, self.closed@, start, end),
    {
        if let Some(from) = self.open {
            if from < end {
                return true;
            }
        }
        let mut i: usize = 0;
        while i < self.closed.len()
            invariant
                i <= self.closed@.len(),
                forall|k: int| 0 <= k < i ==> !(#[trigger] self.closed@[k]).meets(start, end),
            decreases self.closed@.len() - i,
        {
            if self.closed[i].overlaps(start, end) {
                return true;
            }
            i = i + 1;
        }
        false
    }

    /// The first position from `from` on that belongs to dictation.
    pub fn first_held(&self, from: u64) -> (r: Option<u64>)
        ensures
            match r {
                Some(p) => next_held(self.open, self.closed@, from as int) == Some(p as int)
                    && is_next_held(self.open, self.closed@, from as int, p as int),
                None => next_held(self.open, self.closed@, from as int) is None && forall|q: int|
                    from <= q ==> !#[trigger] held(self.open, self.closed@, q),
            },
            r matches Some(p) ==> from <= p && held(self.open, self.closed@, p as int) && (forall|
                q: int,
            |
                from <= q < p ==> !#[trigger] held(self.open, self.closed@, q)),
    {
        let mut best: Option<u64> = match self.open {
            Some(start) => Some(
                if start >= from {
                    start
                } else {
                    from
                },
            ),
            None => None,
        };
        let mut i: usize = 0;
        assert(self.closed@.take(0) =~= Seq::<MicWindow>::empty());
        while i < self.closed.len()
            invariant
                i <= self.closed@.len(),
                match best {
                    Some(b) => is_next_held(
                        self.open,
                        self.closed@.take(i as int),
                        from as int,
                        b as int,
                    ),
                    None => forall|q: int|
                        from <= q ==> !#[trigger] held(self.open, self.closed@.take(i as int), q),
                },
            decreases self.closed@.len() - i,
        {
            let w = self.closed[i];
            proof {
                lemma_held_one_more(self.open, self.closed@, i as int);
            }
            let ghost before = best;
            if w.start < w.end && w.end > from {
                let at: u64 = if w.start >= from {
                    w.start
                } else {
                    from
                };
                best = match best {
                    Some(b) => Some(
                        if b <= at {
                            b
                        } else {
                            at
                        },
                    ),
                    None => Some(at),
                };
            }
            i = i + 1;
        }
        assert(self.closed@.take(i as int) =~= self.closed@);
        proof {
            match best {
                Some(b) => lemma_next_held(self.open, self.closed@, from as int, b as int),
                None => {},
            }
        }
        best
    }

    /// The window that holds `p`, if any does.
    fn window_at(&self, p: u64) -> (r: Option<MicWindow>)
        ensures
            match r {
                Some(w) => self.closed@.contains(w) && w.start <= p < w.end,
                None => !in_windows(self.closed@, p as int),
            },
    {
        let mut i: usize = 0;
        while i < self.closed.len()
            invariant
                i <= self.closed@.len(),
                forall|k: int|
                    0 <= k < i ==> !((#[trigger] self.closed@[k]).start <= p
                        < self.closed@[k].end),
            decreases self.closed@.len() - i,
        {
            let w = self.closed[i];
            if w.start <= p && p < w.end {
                assert(self.closed@[i as int] == w);
                return Some(w);
            }
            i = i + 1;
        }
        None
    }

    /// The first position from `from` on that does not belong to dictation; none where
    /// dictation has the microphone from there on.
    pub fn first_free(&self, from: u64) -> (r: Option<u64>)
        ensures
            match r {
                Some(p) => next_free(self.open, self.closed@, from as int) == Some(p as int)
                    && is_next_free(self.open, self.closed@, from as int, p as int),
                None => next_free(self.open, self.closed@, from as int) is None && forall|q: int|
                    from <= q ==> #[trigger] held(self.open, self.closed@, q),
            },
            r matches Some(p) ==> from <= p && !held(self.open, self.closed@, p as int) && (forall|
                q: int,
            |
                from <= q < p ==> #[trigger] held(self.open, self.closed@, q)),
    {
        let mut p: u64 = from;
        loop
            invariant
                from <= p,
                forall|q: int| from <= q < p ==> #[trigger] held(self.open, self.closed@, q),
            decreases u64::MAX - p,
        {
            if let Some(start) = self.open {
                if start <= p {
                    return None;
                }
            }
            match self.window_at(p) {
                Some(w) => {
                    proof {
                        let i = choose|i: int|
                            0 <= i < self.closed@.len() && self.closed@[i] == w;
                        assert forall|q: int| from <= q < w.end implies #[trigger] held(
                            self.open,
                            self.closed@,
                            q,
                        ) by {
                            if q >= p {
                                assert(self.closed@[i].start <= q < self.closed@[i].end);
                            }
                        }
                    }
                    p = w.end;
                },
                None => {
                    proof {
                        lemma_next_free(self.open, self.closed@, from as int, p as int);
                    }
                    return Some(p);
                },
            }
        }
    }

    /// The ranges of `from..to` that do not belong to dictation, in order.
    pub fn free_ranges(&self, from: u64, to: u64) -> (r: Vec<MicWindow>)
        ensures
            ranged(r@, from, to),
            forall|i: int|
                0 <= i < r@.len() ==> from <= (#[trigger] r@[i]).start < r@[i].end <= to,
            forall|p: int|
                from <= p < to ==> (#[trigger] in_windows(r@, p) <==> !held(
                    self.open,
                    self.closed@,
                    p,
                )),
    {
        let mut out: Vec<MicWindow> = Vec::new();
        let mut at: u64 = from;
        while at < to
            invariant
                from <= at,
                at <= to || at == from,
                ranged(out@, from, at),
                forall|p: int|
                    from <= p < at ==> (#[trigger] in_windows(out@, p) <==> !held(
                        self.open,
                        self.closed@,
                        p,
                    )),
            decreases to - at,
        {
            let start: u64 = match self.first_free(at) {
                Some(a) if a < to => a,
                _ => to,
            };
            if start == to {
                proof {
                    lemma_ranged_wider(out@, from, at, to);
                    assert forall|p: int| from <= p < to implies (#[trigger] in_windows(out@, p)
                        <==> !held(self.open, self.closed@, p)) by {
                        if p >= at {
                            lemma_not_beyond(out@, from, at, p);
                        }
                    }
                }
                return out;
            }
            let end: u64 = match self.first_held(start) {
                Some(b) if b < to => b,
                _ => to,
            };
            let ghost before = out@;
            out.push(MicWindow { start, end });
            proof {
                lemma_ranged_push(before, from, at, MicWindow { start, end });
                assert forall|p: int| from <= p < end implies (#[trigger] in_windows(out@, p)
                    <==> !held(self.open, self.closed@, p)) by {
                    lemma_in_push(before, MicWindow { start, end }, p);
                    if p >= at {
                        lemma_not_beyond(before, from, at, p);
                    }
                }
            }
            at = end;
        }
        proof {
            lemma_ranged_wider(out@, from, at, to);
        }
        out
    }

    /// The ranges of `from..to` that belong to dictation, in order.
    pub fn held_ranges(&self, from: u64, to: u64) -> (r: Vec<MicWindow>)
        ensures
            ranged(r@, from, to),
            forall|i: int|
                0 <= i < r@.len() ==> from <= (#[trigger] r@[i]).start < r@[i].end <= to,
            forall|p: int|
                from <= p < to ==> (#[trigger] in_windows(r@, p) <==> held(
                    self.open,
                    self.closed@,
                    p,
                )),
    {
        let mut out: Vec<MicWindow> = Vec::new();
        let mut at: u64 = from;
        while at < to
            invariant
                from <= at,
                at <= to || at == from,
                ranged(out@, from, at),
                forall|p: int|
                    from <= p < at ==> (#[trigger] in_windows(out@, p) <==> held(
                        self.open,
                        self.closed@,
                        p,
                    )),
            decreases to - at,
        {
            let start: u64 = match self.first_held(at) {
                Some(a) if a < to => a,
                _ => to,
            };
            if start == to {
                proof {
                    lemma_ranged_wider(out@, from, at, to);
                    assert forall|p: int| from <= p < to implies (#[trigger] in_windows(out@, p)
                        <==> held(self.open, self.closed@, p)) by {
                        if p >= at {
                            lemma_not_beyond(out@, from, at, p);
                        }
                    }
                }
                return out;
            }
            let end: u64 = match self.first_free(start) {
                Some(b) if b < to => b,
                _ => to,
            };
            let ghost before = out@;
            out.push(MicWindow { start, end });
            proof {
                lemma_ranged_push(before, from, at, MicWindow { start, end });
                assert forall|p: int| from <= p < end implies (#[trigger] in_windows(out@, p)
                    <==> held(self.open, self.closed@, p)) by {
                    lemma_in_push(before, MicWindow { start, end }, p);
                    if p >= at {
                        lemma_not_beyond(before, from, at, p);
                    }
                }
            }
            at = end;
        }
        proof {
            lemma_ranged_wider(out@, from, at, to);
        }
        out
    }

    /// The samples to be silenced of `count` samples that were read from `start` on, the
    /// channels taken together: all that hold a position of dictation, and no others.
    pub fn muted_samples(&self, start: u64, channels: u16, count: usize) -> (r: Vec<SampleRange>)
        requires
            channels > 0,
            start + count * channels <= u64::MAX,
        ensures
            forall|i: int| 0 <= i < r@.len() ==> (#[trigger] r@[i]).start < r@[i].end <= count,
            forall|k: int|
                0 <= k < count ==> (#[trigger] in_samples(r@, k) <==> sample_held(
                    self.open,
                    self.closed@,
                    start,
                    channels,
                    k,
                )),
            forall|k: int, p: int|
                0 <= k < count && start + k * channels <= p < start + (k + 1) * channels
                    && #[trigger] held(self.open, self.closed@, p) ==> #[trigger] in_samples(r@, k),
    {
        assert(0 <= count * channels) by (nonlinear_arith);
        let step: u64 = channels as u64;
        assert(count as u64 * step == count * channels);
        let held_here: Vec<MicWindow> = self.held_ranges(start, start + count as u64 * step);
        let ghost ranges = held_here@;
        let mut out: Vec<SampleRange> = Vec::new();
        let mut i: usize = 0;
        while i < held_here.len()
            invariant
                i <= held_here@.len(),
                ranges == held_here@,
                out@.len() == i,
                step == channels > 0,
                start + count * channels <= u64::MAX,
                ranged(ranges, start, (start + count * channels) as u64),
                forall|j: int|
                    0 <= j < i ==> (#[trigger] out@[j]).start < out@[j].end <= count && forall|k: int|
                        0 <= k < count ==> (out@[j].start <= k < out@[j].end <==> ranges[j].start
                            < #[trigger] span_at(start, channels, k + 1) && ranges[j].end
                            > span_at(start, channels, k)),
            decreases held_here@.len() - i,
        {
            let w = held_here[i];
            assert(w.start < w.end && start <= w.start && w.end <= start + count * channels);
            let first: u64 = (w.start - start) / step;
            let last: u64 = (w.end - start - 1) / step;
            proof {
                let c: int = channels as int;
                let x: int = w.start - start;
                let y: int = w.end - start - 1;
                lemma_divides(y, c, count as int);
                lemma_divides(x, c, count as int);
                assert(x / c <= y / c) by (nonlinear_arith)
                    requires
                        x <= y,
                        c > 0,
                ;
                assert forall|k: int| 0 <= k < count implies (first <= k < last + 1 <==> w.start
                    < #[trigger] span_at(start, channels, k + 1) && w.end > span_at(
                    start,
                    channels,
                    k,
                )) by {
                    lemma_divides(x, c, k + 1);
                    lemma_divides(y, c, k);
                }
            }
            out.push(SampleRange { start: first as usize, end: last as usize + 1 });
            i = i + 1;
        }
        proof {
            assert forall|k: int| 0 <= k < count implies (#[trigger] in_samples(out@, k)
                <==> sample_held(self.open, self.closed@, start, channels, k)) by {
                let from = span_at(start, channels, k);
                let to = span_at(start, channels, k + 1);
                assert(from < to && start <= from && to <= start + count * channels)
                    by (nonlinear_arith)
                    requires
                        from == start + k * channels,
                        to == start + (k + 1) * channels,
                        0 <= k < count,
                        channels > 0,
                ;
                if in_samples(out@, k) {
                    let j = choose|j: int|
                        0 <= j < out@.len() && (#[trigger] out@[j]).start <= k < out@[j].end;
                    assert(ranges[j].start < span_at(start, channels, k + 1));
                    let p: int = if ranges[j].start >= from {
                        ranges[j].start as int
                    } else {
                        from
                    };
                    assert(ranges[j].start < ranges[j].end);
                    assert(ranges[j].start <= p < ranges[j].end);
                    assert(in_windows(ranges, p));
                    assert(held(self.open, self.closed@, p));
                }
                if sample_held(self.open, self.closed@, start, channels, k) {
                    let p = choose|p: int|
                        start + k * channels <= p < start + (k + 1) * channels
                            && #[trigger] held(self.open, self.closed@, p);
                    assert(in_windows(ranges, p));
                    let j = choose|j: int|
                        0 <= j < ranges.len() && (#[trigger] ranges[j]).start <= p < ranges[j].end;
                    assert(ranges[j].start < span_at(start, channels, k + 1));
                    assert(out@[j].start <= k < out@[j].end);
                }
            }
        }
        out
    }

    /// Every window, the closed ones in their order, then the open one without end.
    pub fn iter_all(&self) -> (r: Vec<MicWindow>)
        ensures
            r@ == (match self.open {
                Some(start) => self.closed@.push(MicWindow { start, end: u64::MAX }),
                None => self.closed@,
            }),
    {
        let mut out: Vec<MicWindow> = Vec::new();
        let mut i: usize = 0;
        while i < self.closed.len()
            invariant
                i <= self.closed@.len(),
                out@ == self.closed@.take(i as int),
            decreases self.closed@.len() - i,
        {
            out.push(self.closed[i]);
            i = i + 1;
            assert(self.closed@.take(i as int) =~= self.closed@.take(i - 1).push(
                self.closed@[i - 1],
            ));
        }
        assert(self.closed@.take(i as int) =~= self.closed@);
        if let Some(start) = self.open {
            out.push(MicWindow { start, end: u64::MAX });
        }
        out
    }
}

/// Where sample `k` of what was read from `start` on begins.
pub open spec fn span_at(start: u64, channels: u16, k: int) -> int {
    start + k * channels
}

proof fn lemma_divides(x: int, c: int, k: int)
    requires
        c > 0,
        x >= 0,
    ensures
        x / c < k <==> x < k * c,
        k <= x / c <==> k * c <= x,
        x / c >= 0,
{
    assert(x == c * (x / c) + x % c && 0 <= x % c < c && x / c >= 0) by (nonlinear_arith)
        requires
            c > 0,
            x >= 0,
    ;
    let q = x / c;
    let r = x % c;
    assert(q < k <==> x < k * c) by (nonlinear_arith)
        requires
            x == c * q + r,
            0 <= r < c,
    ;
    assert(k <= q <==> k * c <= x) by (nonlinear_arith)
        requires
            x == c * q + r,
            0 <= r < c,
    ;
}

proof fn lemma_held_one_more(open: Option<u64>, closed: Seq<MicWindow>, i: int)
    requires
        0 <= i < closed.len(),
    ensures
        forall|q: int| #[trigger]
            held(open, closed.take(i + 1), q) <==> held(open, closed.take(i), q) || closed[i].start
                <= q < closed[i].end,
{
    let less = closed.take(i);
    let more = closed.take(i + 1);
    assert forall|q: int| #[trigger]
        held(open, more, q) <==> held(open, less, q) || closed[i].start <= q < closed[i].end by {
        assert(more =~= less.push(closed[i]));
        lemma_in_push(less, closed[i], q);
    }
}

/// One window more holds what it holds and what the others hold.
pub proof fn lemma_in_push(windows: Seq<MicWindow>, w: MicWindow, p: int)
    ensures
        in_windows(windows.push(w), p) <==> in_windows(windows, p) || w.start <= p < w.end,
{
    let more = windows.push(w);
    if in_windows(windows, p) {
        let i = choose|i: int|
            0 <= i < windows.len() && (#[trigger] windows[i]).start <= p < windows[i].end;
        assert(more[i].start <= p < more[i].end);
    }
    if w.start <= p < w.end {
        assert(more[windows.len() as int].start <= p < more[windows.len() as int].end);
    }
    if in_windows(more, p) {
        let i = choose|i: int|
            0 <= i < more.len() && (#[trigger] more[i]).start <= p < more[i].end;
        if i < windows.len() {
            assert(windows[i].start <= p < windows[i].end);
        }
    }
}

/// The first position of dictation is the only one.
pub proof fn lemma_next_held(open: Option<u64>, closed: Seq<MicWindow>, from: int, p: int)
    requires
        is_next_held(open, closed, from, p),
    ensures
        next_held(open, closed, from) == Some(p),
{
    let c = choose|c: int| is_next_held(open, closed, from, c);
    assert(is_next_held(open, closed, from, c));
    if c < p {
        assert(!held(open, closed, c));
    } else if p < c {
        assert(!held(open, closed, p));
    }
}

/// The first position that is free is the only one.
pub proof fn lemma_next_free(open: Option<u64>, closed: Seq<MicWindow>, from: int, p: int)
    requires
        is_next_free(open, closed, from, p),
    ensures
        next_free(open, closed, from) == Some(p),
{
    let c = choose|c: int| is_next_free(open, closed, from, c);
    assert(is_next_free(open, closed, from, c));
    if c < p {
        assert(held(open, closed, c));
    } else if p < c {
        assert(held(open, closed, p));
    }
}

proof fn lemma_ranged_push(ranges: Seq<MicWindow>, from: u64, at: u64, w: MicWindow)
    requires
        ranged(ranges, from, at),
        from <= at <= w.start < w.end,
    ensures
        ranged(ranges.push(w), from, w.end),
{
    let more = ranges.push(w);
    assert forall|i: int| 0 <= i < more.len() implies (#[trigger] more[i]).start < more[i].end
        && from <= more[i].start && more[i].end <= w.end by {
        if i < ranges.len() {
            assert(more[i] == ranges[i]);
        }
    }
    assert forall|i: int, j: int| 0 <= i < j < more.len() implies (#[trigger] more[i]).end <= (
    #[trigger] more[j]).start by {
        assert(more[i] == ranges[i]);
        if j < ranges.len() {
            assert(more[j] == ranges[j]);
        }
    }
}

proof fn lemma_ranged_wider(ranges: Seq<MicWindow>, from: u64, at: u64, to: u64)
    requires
        ranged(ranges, from, at),
        at <= to || at == from,
    ensures
        ranged(ranges, from, to),
{
    assert forall|i: int| 0 <= i < ranges.len() implies from <= (#[trigger] ranges[i]).start
        && ranges[i].end <= to by {
        assert(ranges[i].start < ranges[i].end);
    }
}

proof fn lemma_not_beyond(ranges: Seq<MicWindow>, from: u64, at: u64, p: int)
    requires
        ranged(ranges, from, at),
        at <= p,
    ensures
        !in_windows(ranges, p),
{
    if in_windows(ranges, p) {
        let i = choose|i: int|
            0 <= i < ranges.len() && (#[trigger] ranges[i]).start <= p < ranges[i].end;
        assert(ranges[i].end <= at);
    }
}

/// A range is owned exactly where it holds a position of dictation.
pub proof fn law_owned_is_held(open: Option<u64>, closed: Seq<MicWindow>, start: u64, end: u64)
    requires
        start < end,
        forall|i: int| 0 <= i < closed.len() ==> (#[trigger] closed[i]).start < closed[i].end,
    ensures
        owned(open, closed, start, end) <==> exists|p: int|
            start <= p < end && #[trigger] held(open, closed, p),
{
    if owned(open, closed, start, end) {
        if open matches Some(from) && from < end {
            let p: int = if open->0 >= start {
                open->0 as int
            } else {
                start as int
            };
            assert(held(open, closed, p));
        } else {
            let i = choose|i: int| 0 <= i < closed.len() && (#[trigger] closed[i]).meets(start, end);
            let p: int = if closed[i].start >= start {
                closed[i].start as int
            } else {
                start as int
            };
            assert(closed[i].start <= p < closed[i].end);
            assert(held(open, closed, p));
        }
    }
    if exists|p: int| start <= p < end && #[trigger] held(open, closed, p) {
        let p = choose|p: int| start <= p < end && #[trigger] held(open, closed, p);
        if in_windows(closed, p) {
            let i = choose|i: int|
                0 <= i < closed.len() && (#[trigger] closed[i]).start <= p < closed[i].end;
            assert(closed[i].meets(start, end));
        }
    }
}

/// Dropping windows that every reader has passed changes nothing from `min_pos` on.
pub proof fn lemma_prune_keeps_held(
    open: Option<u64>,
    closed: Seq<MicWindow>,
    min_pos: u64,
    p: int,
)
    requires
        p >= min_pos,
    ensures
        held(open, unpassed(closed, min_pos), p) == held(open, closed, p),
    decreases closed.len(),
{
    if closed.len() > 0 && closed[0].end <= min_pos {
        let rest = closed.drop_first();
        lemma_prune_keeps_held(open, rest, min_pos, p);
        if in_windows(closed, p) {
            let i = choose|i: int|
                0 <= i < closed.len() && (#[trigger] closed[i]).start <= p < closed[i].end;
            assert(rest[i - 1].start <= p < rest[i - 1].end);
        }
        if in_windows(rest, p) {
            let i = choose|i: int|
                0 <= i < rest.len() && (#[trigger] rest[i]).start <= p < rest[i].end;
            assert(closed[i + 1].start <= p < closed[i + 1].end);
        }
    }
}

proof fn lemma_unpassed_in_order(open: Option<u64>, closed: Seq<MicWindow>, min_pos: u64)
    ensures
        chronological(open, closed) ==> chronological(open, unpassed(closed, min_pos)),
    decreases closed.len(),
{
    if chronological(open, closed) && closed.len() > 0 && closed[0].end <= min_pos {
        let rest = closed.drop_first();
        assert(chronological(open, rest)) by {
            assert forall|i: int| 0 <= i < rest.len() implies (#[trigger] rest[i]).start
                < rest[i].end by {
                assert(rest[i] == closed[i + 1]);
            }
            assert forall|i: int, j: int| 0 <= i < j < rest.len() implies (#[trigger] rest[i]).end
                <= (#[trigger] rest[j]).start by {
                assert(rest[i] == closed[i + 1]);
                assert(rest[j] == closed[j + 1]);
            }
            if let Some(from) = open {
                assert forall|i: int| 0 <= i < rest.len() implies (#[trigger] rest[i]).end
                    <= from by {
                    assert(rest[i] == closed[i + 1]);
                }
            }
        }
        lemma_unpassed_in_order(open, rest, min_pos);
    }
}

/// Dropping windows that every reader has passed changes no answer that a reader can
/// still ask for: for a range that begins at or after `min_pos` the answer is the same.
pub proof fn law_prune_changes_no_answer(
    open: Option<u64>,
    closed: Seq<MicWindow>,
    min_pos: u64,
    start: u64,
    end: u64,
)
    requires
        start >= min_pos,
    ensures
        owned(open, unpassed(closed, min_pos), start, end) == owned(open, closed, start, end),
    decreases closed.len(),
{
    if closed.len() > 0 && closed[0].end <= min_pos {
        let rest = closed.drop_first();
        law_prune_changes_no_answer(open, rest, min_pos, start, end);
        if owned(open, closed, start, end) && !owned(open, rest, start, end) {
            let i = choose|i: int| 0 <= i < closed.len() && (#[trigger] closed[i]).meets(start, end);
            assert(i > 0);
            assert(rest[i - 1].meets(start, end));
        }
        if owned(open, rest, start, end) && !owned(open, closed, start, end) {
            let i = choose|i: int| 0 <= i < rest.len() && (#[trigger] rest[i]).meets(start, end);
            assert(closed[i + 1].meets(start, end));
        }
    }
}

/// After dropping, where windows follow one another in time, none that ended at or
/// before `min_pos` is left.
pub proof fn law_prune_is_complete(open: Option<u64>, closed: Seq<MicWindow>, min_pos: u64, i: int)
    requires
        chronological(open, closed),
        0 <= i < unpassed(closed, min_pos).len(),
    ensures
        unpassed(closed, min_pos)[i].end > min_pos,
    decreases closed.len(),
{
    if closed.len() > 0 && closed[0].end <= min_pos {
        let rest = closed.drop_first();
        assert forall|a: int| 0 <= a < rest.len() implies (#[trigger] rest[a]).start
            < rest[a].end by {
            assert(rest[a] == closed[a + 1]);
        }
        assert forall|a: int, b: int| 0 <= a < b < rest.len() implies (#[trigger] rest[a]).end
            <= (#[trigger] rest[b]).start by {
            assert(rest[a] == closed[a + 1]);
            assert(rest[b] == closed[b + 1]);
        }
        if let Some(from) = open {
            assert forall|a: int| 0 <= a < rest.len() implies (#[trigger] rest[a]).end <= from by {
                assert(rest[a] == closed[a + 1]);
            }
        }
        law_prune_is_complete(open, rest, min_pos, i);
    } else if i > 0 {
        assert(closed[0].end <= closed[i].start);
        assert(closed[i].start < closed[i].end);
    }
}

/// A dictation that opened and closed between two questions is still seen: once
/// `start..end` was closed, every range that meets it is owned.
pub proof fn law_closed_window_is_durable(
    closed: Seq<MicWindow>,
    window: MicWindow,
    start: u64,
    end: u64,
)
    requires
        window.meets(start, end),
    ensures
        owned(None, closed.push(window), start, end),
{
    assert(closed.push(window)[closed.len() as int].meets(start, end));
}

/// A window holds what lies from its start up to, not counting, its end, and nothing else;
/// the open one holds everything from its start on; without windows nothing is held.
pub proof fn law_window_holds_its_span(
    open: Option<u64>,
    closed: Seq<MicWindow>,
    w: MicWindow,
    from: u64,
    p: int,
)
    ensures
        !held(None, Seq::empty(), p),
        held(Some(from), closed, p) <==> from <= p || held(None, closed, p),
        held(open, closed.push(w), p) <==> held(open, closed, p) || w.start <= p < w.end,
        held(open, closed, p) && open is None ==> exists|i: int|
            0 <= i < closed.len() && (#[trigger] closed[i]).start <= p < closed[i].end,
{
    let grown = closed.push(w);
    if in_windows(closed, p) {
        let i = choose|i: int|
            0 <= i < closed.len() && (#[trigger] closed[i]).start <= p < closed[i].end;
        assert(grown[i] == closed[i]);
    }
    if w.start <= p < w.end {
        assert(grown[closed.len() as int] == w);
    }
    if in_windows(grown, p) {
        let i = choose|i: int|
            0 <= i < grown.len() && (#[trigger] grown[i]).start <= p < grown[i].end;
        if i < closed.len() {
            assert(closed[i] == grown[i]);
        }
    }
}

/// A sample is silenced where one of its positions belongs to dictation and kept where none
/// does, whatever its neighbours hold; it lies in a range from its start up to, not
/// counting, its end.
pub proof fn law_sample_goes_by_its_positions(
    open: Option<u64>,
    closed: Seq<MicWindow>,
    start: u64,
    channels: u16,
    k: int,
    ranges: Seq<SampleRange>,
    i: int,
)
    ensures
        (forall|p: int|
            start + k * channels <= p < start + (k + 1) * channels ==> !#[trigger] held(
                open,
                closed,
                p,
            )) <==> !sample_held(open, closed, start, channels, k),
        0 <= i < ranges.len() && ranges[i].start <= k < ranges[i].end ==> in_samples(ranges, k),
        (forall|j: int|
            0 <= j < ranges.len() ==> k < (#[trigger] ranges[j]).start || ranges[j].end <= k)
            ==> !in_samples(ranges, k),
{
}

} // verus!
