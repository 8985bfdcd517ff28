//! Feedback on the tap classifier: a ring of recent chunks (each with its
//! time and peak, and whatever measurements the caller keeps with it), the
//! search for the chunk meant by a "that wasn't a tap" or a "my tap went
//! unnoticed" complaint, and the rule that keeps retraining from
//! running twice at once or too often. Training itself and the feedback
//! file are the caller's part.
use vstd::prelude::*;

verus! {

/// How long a chunk stays in the ring.
pub const RING_MAX_AGE_NS: u64 = 60_000_000_000;
/// How many chunks the ring holds at most.
pub const RING_MAX_LEN: usize = 8000;
/// How long before its confirmation a tap's sound is expected.
pub const CONFIRM_DELAY_ESTIMATE_NS: u64 = 150_000_000;
/// How far around that instant a false-positive report searches.
pub const FALSE_POSITIVE_SEARCH_RADIUS_NS: u64 = 250_000_000;
/// How far back a false-negative report searches.
pub const FALSE_NEGATIVE_LOOKBACK_NS: u64 = 3_000_000_000;
/// The quietest peak a false-negative report accepts as a real sound.
pub const FALSE_NEGATIVE_MIN_PEAK: u32 = 250;
/// The shortest gap between two retrains, in milliseconds.
pub const MIN_RETRAIN_INTERVAL_MS: u64 = 20_000;

/// One chunk in the ring: when it was heard, its peak, and the caller's
/// measurements of it.
#[derive(Clone, Copy)]
pub struct RingEntry<T> {
    pub at: u64,
    pub peak: u32,
    pub data: T,
}

/// How many entries at the front are older than `cutoff`.
pub open spec fn stale_prefix<T>(s: Seq<RingEntry<T>>, cutoff: u64) -> nat
    decreases s.len(),
{
    if s.len() == 0 {
        0
    } else {
        let l = stale_prefix(s.drop_last(), cutoff);
        if l == s.len() - 1 && s.last().at < cutoff { s.len() } else { l }
    }
}

/// The ring after adding `e`: the oldest entries beyond the length cap go,
/// then every entry at the front older than the age limit before `e`.
pub open spec fn ring_after_push<T>(s: Seq<RingEntry<T>>, e: RingEntry<T>) -> Seq<RingEntry<T>> {
    let s1 = s.push(e);
    let s2 = if s1.len() > RING_MAX_LEN { s1.skip(s1.len() - RING_MAX_LEN) } else { s1 };
    if e.at >= RING_MAX_AGE_NS {
        s2.skip(stale_prefix(s2, (e.at - RING_MAX_AGE_NS) as u64) as int)
    } else {
        s2
    }
}

/// The index of the loudest entry satisfying `pred`, the last one among
/// equally loud entries.
pub open spec fn loudest<T>(s: Seq<RingEntry<T>>, pred: spec_fn(RingEntry<T>) -> bool) -> Option<int>
    decreases s.len(),
{
    if s.len() == 0 {
        None
    } else {
        let b = loudest(s.drop_last(), pred);
        if pred(s.last()) && (b is None || s.last().peak >= s[b->0].peak) {
            Some(s.len() - 1)
        } else {
            b
        }
    }
}

/// Whether `at` lies within `radius` of `center`.
pub open spec fn near(at: u64, center: u64, radius: u64) -> bool {
    if at >= center { at - center <= radius } else { center - at <= radius }
}

/// Whether `at` lies in `[cutoff, now]`.
pub open spec fn trailing(at: u64, cutoff: u64, now: u64) -> bool {
    cutoff <= at && at <= now
}

/// The start of the trailing window of `lookback` ending at `now` (the
/// window starts at `now` itself when it would reach before time zero).
pub open spec fn trailing_cutoff(now: u64, lookback: u64) -> u64 {
    if now >= lookback { (now - lookback) as u64 } else { now }
}

/// The indices an evenly spaced sample of at most `max` entries takes from
/// `len`: every index when they fit, otherwise every `len / max`-th from
/// the first, `max` of them.
pub open spec fn sample_index(len: nat, max: nat, i: int) -> int {
    if len <= max { i } else { i * (len / max) as int }
}

/// The number of entries such a sample takes.
pub open spec fn sample_len(len: nat, max: nat) -> nat {
    if len <= max { len } else { max }
}

/// The recent chunks, oldest first.
pub struct FeedbackRing<T> {
    buf: std::collections::VecDeque<RingEntry<T>>,
}

impl<T: Copy> FeedbackRing<T> {
    /// The entries, oldest first.
    pub closed spec fn entries(&self) -> Seq<RingEntry<T>> {
        self.buf@
    }

    /// An empty ring.
    pub fn new() -> (r: FeedbackRing<T>)
        ensures
            r.entries() == Seq::<RingEntry<T>>::empty(),
    {
        FeedbackRing { buf: std::collections::VecDeque::new() }
    }

    /// Adds a chunk (see `ring_after_push`).
    pub fn push(&mut self, e: RingEntry<T>)
        ensures
            final(self).entries() == ring_after_push(old(self).entries(), e),
            final(self).entries().len() <= RING_MAX_LEN,
    {
        self.buf.push_back(e);
        let ghost s1 = self.buf@;
        let ghost keep: int = if s1.len() > RING_MAX_LEN { RING_MAX_LEN as int } else { s1.len() as int };
        while self.buf.len() > RING_MAX_LEN
            invariant
                s1.len() >= 1,
                keep == (if s1.len() > RING_MAX_LEN { RING_MAX_LEN as int } else { s1.len() as int }),
                keep <= self.buf@.len() <= s1.len(),
                self.buf@ == s1.skip(s1.len() - self.buf@.len()),
            decreases self.buf@.len(),
        {
            let _ = self.buf.pop_front();
            assert(self.buf@ =~= s1.skip(s1.len() - self.buf@.len()));
        }
        assert(self.buf@ =~= (if s1.len() > RING_MAX_LEN { s1.skip(s1.len() - RING_MAX_LEN) } else { s1 }));
        let ghost s2 = self.buf@;
        if e.at >= RING_MAX_AGE_NS {
            let cutoff = e.at - RING_MAX_AGE_NS;
            let ghost mut k: int = 0;
            while self.buf.len() > 0 && self.buf[0].at < cutoff
                invariant
                    0 <= k <= s2.len(),
                    self.buf@ == s2.skip(k),
                    forall|j: int| 0 <= j < k ==> #[trigger] s2[j].at < cutoff,
                decreases self.buf@.len(),
            {
                proof {
                    assert(s2[k] == self.buf@[0]);
                }
                let _ = self.buf.pop_front();
                proof {
                    k = k + 1;
                }
                assert(self.buf@ =~= s2.skip(k));
            }
            proof {
                lemma_stale_prefix(s2, cutoff);
                let d = stale_prefix(s2, cutoff);
                if k < d {
                    assert(self.buf@[0] == s2[k]);
                    assert(s2[k].at < cutoff);
                } else if d < k {
                    assert(s2[d as int].at < cutoff);
                }
            }
        }
    }

    /// The loudest chunk within `radius` of `center`, if any.
    pub fn loudest_near(&self, center: u64, radius: u64) -> (r: Option<RingEntry<T>>)
        ensures
            r == match loudest(self.entries(), |c: RingEntry<T>| near(c.at, center, radius)) {
                Some(i) => Some(self.entries()[i]),
                None => None,
            },
    {
        let ghost pred = |c: RingEntry<T>| near(c.at, center, radius);
        let n = self.buf.len();
        let mut best: Option<usize> = None;
        let mut i: usize = 0;
        while i < n
            invariant
                n == self.buf@.len(),
                i <= n,
                pred == (|c: RingEntry<T>| near(c.at, center, radius)),
                match best {
                    Some(b) => loudest(self.buf@.take(i as int), pred) == Some(b as int) && b < i,
                    None => loudest(self.buf@.take(i as int), pred) is None,
                },
            decreases n - i,
        {
            let c = self.buf[i];
            let close = if c.at >= center { c.at - center <= radius } else { center - c.at <= radius };
            proof {
                let t = self.buf@.take(i + 1);
                assert(t.drop_last() =~= self.buf@.take(i as int));
                match best {
                    Some(b) => {
                        assert(t[b as int] == self.buf@[b as int]);
                    },
                    None => {},
                }
            }
            if close {
                match best {
                    Some(b) => {
                        if c.peak >= self.buf[b].peak {
                            best = Some(i);
                        }
                    },
                    None => {
                        best = Some(i);
                    },
                }
            }
            i += 1;
        }
        assert(self.buf@.take(n as int) =~= self.buf@);
        match best {
            Some(b) => Some(self.buf[b]),
            None => None,
        }
    }

    /// The loudest chunk in the trailing `lookback` ending at `now`.
    pub fn loudest_trailing(&self, now: u64, lookback: u64) -> (r: Option<RingEntry<T>>)
        ensures
            r == match loudest(self.entries(), |c: RingEntry<T>| trailing(c.at, trailing_cutoff(now, lookback), now)) {
                Some(i) => Some(self.entries()[i]),
                None => None,
            },
    {
        let cutoff = if now >= lookback { now - lookback } else { now };
        let ghost pred = |c: RingEntry<T>| trailing(c.at, trailing_cutoff(now, lookback), now);
        let n = self.buf.len();
        let mut best: Option<usize> = None;
        let mut i: usize = 0;
        while i < n
            invariant
                n == self.buf@.len(),
                i <= n,
                cutoff == trailing_cutoff(now, lookback),
                pred == (|c: RingEntry<T>| trailing(c.at, trailing_cutoff(now, lookback), now)),
                match best {
                    Some(b) => loudest(self.buf@.take(i as int), pred) == Some(b as int) && b < i,
                    None => loudest(self.buf@.take(i as int), pred) is None,
                },
            decreases n - i,
        {
            let c = self.buf[i];
            let inside = c.at >= cutoff && c.at <= now;
            proof {
                let t = self.buf@.take(i + 1);
                assert(t.drop_last() =~= self.buf@.take(i as int));
                match best {
                    Some(b) => {
                        assert(t[b as int] == self.buf@[b as int]);
                    },
                    None => {},
                }
            }
            if inside {
                match best {
                    Some(b) => {
                        if c.peak >= self.buf[b].peak {
                            best = Some(i);
                        }
                    },
                    None => {
                        best = Some(i);
                    },
                }
            }
            i += 1;
        }
        assert(self.buf@.take(n as int) =~= self.buf@);
        match best {
            Some(b) => Some(self.buf[b]),
            None => None,
        }
    }

    /// Up to `max` chunks spread evenly over the ring (see `sample_index`).
    pub fn sample(&self, max: usize) -> (r: Vec<RingEntry<T>>)
        requires
            max > 0,
        ensures
            r@.len() == sample_len(self.entries().len(), max as nat),
            forall|i: int| 0 <= i < r@.len() ==> 0 <= sample_index(self.entries().len(), max as nat, i) < self.entries().len()
                && #[trigger] r@[i] == self.entries()[sample_index(self.entries().len(), max as nat, i)],
    {
        let n = self.buf.len();
        let mut out: Vec<RingEntry<T>> = Vec::new();
        if n <= max {
            let mut i: usize = 0;
            while i < n
                invariant
                    n == self.buf@.len(),
                    n <= max,
                    i <= n,
                    out@ == self.buf@.take(i as int),
                decreases n - i,
            {
                out.push(self.buf[i]);
                assert(self.buf@.take(i + 1) =~= self.buf@.take(i as int).push(self.buf@[i as int]));
                i += 1;
            }
            assert(self.buf@.take(n as int) =~= self.buf@);
            return out;
        }
        let stride = n / max;
        assert(stride >= 1) by (nonlinear_arith)
            requires n > max, max > 0, stride == n / max;
        let mut i: usize = 0;
        let mut idx: usize = 0;
        while i < max
            invariant
                n == self.buf@.len(),
                n > max,
                max > 0,
                stride == n / max,
                i <= max,
                idx == i * stride,
                idx <= n,
                out@.len() == i,
                forall|j: int| 0 <= j < i ==> #[trigger] sample_index(n as nat, max as nat, j) == j * stride,
                forall|j: int| 0 <= j < i ==> 0 <= #[trigger] sample_index(n as nat, max as nat, j) < n,
                forall|j: int| 0 <= j < i ==> #[trigger] out@[j] == self.buf@[sample_index(n as nat, max as nat, j)],
            decreases max - i,
        {
            assert(idx < n) by (nonlinear_arith)
                requires idx == i * stride, i < max, stride == n / max, max > 0, n > max;
            let ghost before = out@;
            out.push(self.buf[idx]);
            assert((i + 1) * stride <= n) by (nonlinear_arith)
                requires i + 1 <= max, stride == n / max, max > 0, n > max;
            assert(idx + stride == (i + 1) * stride) by (nonlinear_arith)
                requires idx == i * stride;
            proof {
                assert(sample_index(n as nat, max as nat, i as int) == idx);
                assert forall|j: int| 0 <= j < i + 1 implies #[trigger] out@[j] == self.buf@[sample_index(n as nat, max as nat, j)] by {
                    if j < i {
                        assert(out@[j] == before[j]);
                    }
                }
            }
            idx = idx + stride;
            i += 1;
        }
        out
    }
}

/// `stale_prefix` counts exactly the entries at the front older than the
/// cutoff.
pub proof fn lemma_stale_prefix<T>(s: Seq<RingEntry<T>>, cutoff: u64)
    ensures
        stale_prefix(s, cutoff) <= s.len(),
        forall|j: int| 0 <= j < stale_prefix(s, cutoff) ==> #[trigger] s[j].at < cutoff,
        stale_prefix(s, cutoff) < s.len() ==> s[stale_prefix(s, cutoff) as int].at >= cutoff,
    decreases s.len(),
{
    if s.len() > 0 {
        let d = s.drop_last();
        lemma_stale_prefix(d, cutoff);
        assert forall|j: int| 0 <= j < d.len() implies d[j] == s[j] by {}
    }
}

/// Why a feedback report found nothing to learn from.
#[derive(PartialEq, Eq, Structural, Clone, Copy)]
pub enum FeedbackError {
    /// A false-positive report with no recent tap group to take back.
    NoRecentTaps,
    /// None of the group's taps has a recorded sound near it.
    NoMatchingSound,
    /// A false-negative report with nothing heard in the lookback.
    NothingHeard,
    /// The loudest recent sound is too quiet to have been a tap.
    TooQuiet,
}

/// The message shown for each kind of empty report.
pub open spec fn feedback_message(e: FeedbackError) -> Seq<char> {
    match e {
        FeedbackError::NoRecentTaps => "最近没有可撤销的敲击"@,
        FeedbackError::NoMatchingSound => "没能在最近的录音里找到对应的声音片段"@,
        FeedbackError::NothingHeard => "最近没有捕捉到任何声音"@,
        FeedbackError::TooQuiet => "最近几秒内没有检测到明显的敲击声，请在敲击后尽快点击反馈"@,
    }
}

impl FeedbackError {
    /// The message shown to the user.
    pub fn message(&self) -> (s: String)
        ensures
            s@ == feedback_message(*self),
    {
        match self {
            FeedbackError::NoRecentTaps => String::from_str("最近没有可撤销的敲击"),
            FeedbackError::NoMatchingSound => String::from_str("没能在最近的录音里找到对应的声音片段"),
            FeedbackError::NothingHeard => String::from_str("最近没有捕捉到任何声音"),
            FeedbackError::TooQuiet => String::from_str("最近几秒内没有检测到明显的敲击声，请在敲击后尽快点击反馈"),
        }
    }
}

/// Where a tap confirmed at `confirmed_at` was heard: one confirm delay
/// earlier (or at the confirmation itself when that would reach before
/// time zero).
pub open spec fn estimated_event(confirmed_at: u64) -> u64 {
    if confirmed_at >= CONFIRM_DELAY_ESTIMATE_NS { (confirmed_at - CONFIRM_DELAY_ESTIMATE_NS) as u64 } else { confirmed_at }
}

/// The loudest chunk near where a confirmed tap was heard.
pub open spec fn sound_of_tap<T>(ring: Seq<RingEntry<T>>, confirmed_at: u64) -> Option<RingEntry<T>> {
    match loudest(ring, |c: RingEntry<T>| near(c.at, estimated_event(confirmed_at), FALSE_POSITIVE_SEARCH_RADIUS_NS)) {
        Some(i) => Some(ring[i]),
        None => None,
    }
}

/// The sounds found for a group's taps, in order, skipping taps with none.
pub open spec fn sounds_of_taps<T>(ring: Seq<RingEntry<T>>, taps: Seq<u64>) -> Seq<RingEntry<T>>
    decreases taps.len(),
{
    if taps.len() == 0 {
        Seq::empty()
    } else {
        let rest = sounds_of_taps(ring, taps.drop_last());
        match sound_of_tap(ring, taps.last()) {
            Some(c) => rest.push(c),
            None => rest,
        }
    }
}

/// The chunks a "that wasn't a tap" report relabels as background: the
/// sound of each tap of the last group (`taps`, confirmation times).
pub fn false_positive_rows<T: Copy>(ring: &FeedbackRing<T>, taps: &Vec<u64>) -> (r: Result<Vec<RingEntry<T>>, FeedbackError>)
    ensures
        taps@.len() == 0 ==> r == Err::<Vec<RingEntry<T>>, FeedbackError>(FeedbackError::NoRecentTaps),
        taps@.len() > 0 && sounds_of_taps(ring.entries(), taps@).len() == 0
            ==> r == Err::<Vec<RingEntry<T>>, FeedbackError>(FeedbackError::NoMatchingSound),
        taps@.len() > 0 && sounds_of_taps(ring.entries(), taps@).len() > 0
            ==> (r matches Ok(rows) && rows@ == sounds_of_taps(ring.entries(), taps@)),
{
    if taps.len() == 0 {
        return Err(FeedbackError::NoRecentTaps);
    }
    let mut found: Vec<RingEntry<T>> = Vec::new();
    let n = taps.len();
    let mut i: usize = 0;
    while i < n
        invariant
            n == taps@.len(),
            i <= n,
            found@ == sounds_of_taps(ring.entries(), taps@.take(i as int)),
        decreases n - i,
    {
        let t = taps[i];
        let estimate = if t >= CONFIRM_DELAY_ESTIMATE_NS { t - CONFIRM_DELAY_ESTIMATE_NS } else { t };
        let c = ring.loudest_near(estimate, FALSE_POSITIVE_SEARCH_RADIUS_NS);
        proof {
            assert(taps@.take(i + 1).drop_last() =~= taps@.take(i as int));
        }
        match c {
            Some(e) => {
                found.push(e);
            },
            None => {},
        }
        i += 1;
    }
    assert(taps@.take(n as int) =~= taps@);
    if found.len() == 0 {
        return Err(FeedbackError::NoMatchingSound);
    }
    Ok(found)
}

/// The index `loudest` finds is a loudest entry satisfying `pred`, and it
/// finds one exactly when some entry satisfies `pred`.
pub proof fn lemma_loudest<T>(s: Seq<RingEntry<T>>, pred: spec_fn(RingEntry<T>) -> bool)
    ensures
        (loudest(s, pred) is Some) == (exists|j: int| 0 <= j < s.len() && #[trigger] pred(s[j])),
        loudest(s, pred) matches Some(i) ==> {
            &&& 0 <= i < s.len()
            &&& pred(s[i])
            &&& forall|j: int| 0 <= j < s.len() && #[trigger] pred(s[j]) ==> s[j].peak <= s[i].peak
        },
    decreases s.len(),
{
    if s.len() > 0 {
        let d = s.drop_last();
        lemma_loudest(d, pred);
        assert forall|j: int| 0 <= j < d.len() implies d[j] == s[j] by {}
        if exists|j: int| 0 <= j < s.len() && #[trigger] pred(s[j]) {
            let j = choose|j: int| 0 <= j < s.len() && #[trigger] pred(s[j]);
            if j < d.len() {
                assert(pred(d[j]));
            }
        }
    }
}

/// Whether the ring holds a chunk near where a tap confirmed at
/// `confirmed_at` was heard.
pub open spec fn has_sound<T>(ring: Seq<RingEntry<T>>, confirmed_at: u64) -> bool {
    exists|j: int| 0 <= j < ring.len()
        && #[trigger] near(ring[j].at, estimated_event(confirmed_at), FALSE_POSITIVE_SEARCH_RADIUS_NS)
}

/// `c` is a chunk of the ring near `center`, and none near it is louder.
pub open spec fn loudest_chunk_near<T>(ring: Seq<RingEntry<T>>, c: RingEntry<T>, center: u64) -> bool {
    &&& exists|j: int| 0 <= j < ring.len() && #[trigger] ring[j] == c
    &&& near(c.at, center, FALSE_POSITIVE_SEARCH_RADIUS_NS)
    &&& forall|j: int| 0 <= j < ring.len() && #[trigger] near(ring[j].at, center, FALSE_POSITIVE_SEARCH_RADIUS_NS)
        ==> ring[j].peak <= c.peak
}

/// The taps of a group for which the ring holds a nearby chunk, in order.
pub open spec fn heard_taps<T>(ring: Seq<RingEntry<T>>, taps: Seq<u64>) -> Seq<u64> {
    taps.filter(|t: u64| has_sound(ring, t))
}

/// The sound found for one tap is a loudest nearby chunk, found exactly
/// when there is one.
pub proof fn lemma_sound_of_tap<T>(ring: Seq<RingEntry<T>>, t: u64)
    ensures
        (sound_of_tap(ring, t) is Some) == has_sound(ring, t),
        sound_of_tap(ring, t) matches Some(c) ==> loudest_chunk_near(ring, c, estimated_event(t)),
{
    let pred = |c: RingEntry<T>| near(c.at, estimated_event(t), FALSE_POSITIVE_SEARCH_RADIUS_NS);
    lemma_loudest(ring, pred);
    if has_sound(ring, t) {
        let j = choose|j: int| 0 <= j < ring.len()
            && #[trigger] near(ring[j].at, estimated_event(t), FALSE_POSITIVE_SEARCH_RADIUS_NS);
        assert(pred(ring[j]));
    }
    if exists|j: int| 0 <= j < ring.len() && #[trigger] pred(ring[j]) {
        let j = choose|j: int| 0 <= j < ring.len() && #[trigger] pred(ring[j]);
        assert(near(ring[j].at, estimated_event(t), FALSE_POSITIVE_SEARCH_RADIUS_NS));
    }
    match loudest(ring, pred) {
        Some(i) => {
            assert(ring[i] == ring[i]);
            assert forall|j: int| 0 <= j < ring.len() && #[trigger] near(ring[j].at, estimated_event(t), FALSE_POSITIVE_SEARCH_RADIUS_NS)
                implies ring[j].peak <= ring[i].peak by {
                assert(pred(ring[j]));
            }
        },
        None => {},
    }
}

/// A false-positive report relabels the sound of every tap of the group
/// that has one: the rows are, in order, one per tap with a chunk near
/// where it was heard (so as many rows as such taps), each the loudest
/// chunk near that tap.
pub proof fn law_every_heard_tap_contributes<T>(ring: Seq<RingEntry<T>>, taps: Seq<u64>)
    ensures
        sounds_of_taps(ring, taps).len() == heard_taps(ring, taps).len(),
        forall|k: int| 0 <= k < sounds_of_taps(ring, taps).len()
            ==> loudest_chunk_near(ring, #[trigger] sounds_of_taps(ring, taps)[k], estimated_event(heard_taps(ring, taps)[k])),
    decreases taps.len(),
{
    reveal(Seq::filter);
    if taps.len() > 0 {
        let d = taps.drop_last();
        let t = taps.last();
        law_every_heard_tap_contributes(ring, d);
        lemma_sound_of_tap(ring, t);
        let f = |t: u64| has_sound(ring, t);
        assert(heard_taps(ring, taps) == if f(t) { d.filter(f).push(t) } else { d.filter(f) });
        let rest = sounds_of_taps(ring, d);
        assert forall|k: int| 0 <= k < sounds_of_taps(ring, taps).len()
            implies loudest_chunk_near(ring, #[trigger] sounds_of_taps(ring, taps)[k], estimated_event(heard_taps(ring, taps)[k])) by {
            if k < rest.len() {
                assert(sounds_of_taps(ring, taps)[k] == rest[k]);
                assert(heard_taps(ring, taps)[k] == heard_taps(ring, d)[k]);
            }
        }
    }
}

/// The chunk an "I tapped and nothing happened" report at `now` labels as
/// a tap: the loudest in the lookback, if loud enough.
pub fn false_negative_row<T: Copy>(ring: &FeedbackRing<T>, now: u64) -> (r: Result<RingEntry<T>, FeedbackError>)
    ensures
        match loudest(ring.entries(), |c: RingEntry<T>| trailing(c.at, trailing_cutoff(now, FALSE_NEGATIVE_LOOKBACK_NS), now)) {
            None => r == Err::<RingEntry<T>, FeedbackError>(FeedbackError::NothingHeard),
            Some(i) => if ring.entries()[i].peak < FALSE_NEGATIVE_MIN_PEAK {
                r == Err::<RingEntry<T>, FeedbackError>(FeedbackError::TooQuiet)
            } else {
                r == Ok::<RingEntry<T>, FeedbackError>(ring.entries()[i])
            },
        },
{
    match ring.loudest_trailing(now, FALSE_NEGATIVE_LOOKBACK_NS) {
        None => Err(FeedbackError::NothingHeard),
        Some(c) => {
            if c.peak < FALSE_NEGATIVE_MIN_PEAK {
                Err(FeedbackError::TooQuiet)
            } else {
                Ok(c)
            }
        },
    }
}

/// Whether a retrain runs, and when the last one was accepted
/// (milliseconds).
pub struct TrainerGate {
    pub training: bool,
    pub last_trained: Option<u64>,
}

/// Whether a retrain at `now` comes too soon after the last accepted one.
pub open spec fn too_soon(last_trained: Option<u64>, now: u64) -> bool {
    match last_trained {
        Some(t) => crate::pairing_button::elapsed(now, t) < MIN_RETRAIN_INTERVAL_MS,
        None => false,
    }
}

impl TrainerGate {
    /// Idle, never trained.
    pub fn new() -> (g: TrainerGate)
        ensures
            !g.training,
            g.last_trained is None,
    {
        TrainerGate { training: false, last_trained: None }
    }

    /// Starts a retrain at `now` unless one is running or the last accepted
    /// one is too recent. Never two at once, never closer than the minimum
    /// interval after an accepted one.
    pub fn try_begin(&mut self, now: u64) -> (started: bool)
        ensures
            started == (!old(self).training && !too_soon(old(self).last_trained, now)),
            final(self).training == (old(self).training || started),
            final(self).last_trained == old(self).last_trained,
    {
        if self.training {
            return false;
        }
        let soon = match self.last_trained {
            Some(t) => now.saturating_sub(t) < MIN_RETRAIN_INTERVAL_MS,
            None => false,
        };
        if soon {
            return false;
        }
        self.training = true;
        true
    }

    /// A retrain ended at `now`; an accepted one restarts the interval.
    pub fn finish(&mut self, now: u64, accepted: bool)
        ensures
            !final(self).training,
            final(self).last_trained == (if accepted { Some(now) } else { old(self).last_trained }),
    {
        if accepted {
            self.last_trained = Some(now);
        }
        self.training = false;
    }

    /// `"training"` or `"idle"`.
    pub fn state_name(&self) -> (s: &'static str)
        ensures
            s@ == (if self.training { "training"@ } else { "idle"@ }),
    {
        if self.training { "training" } else { "idle" }
    }
}

/// The fewest recent chunks a retrain replays as background.
pub const MIN_REPLAY_ROWS: usize = 20;

/// Why a retrain does not start.
#[derive(PartialEq, Eq, Structural, Clone, Copy)]
pub enum RetrainRefusal {
    /// The feedback file holds no usable row.
    NoFeedback,
    /// Too few recent chunks to replay as background.
    TooFewRecent,
}

/// The message recorded for each refusal.
pub open spec fn refusal_message(e: RetrainRefusal) -> Seq<char> {
    match e {
        RetrainRefusal::NoFeedback => "没有可用的反馈数据"@,
        RetrainRefusal::TooFewRecent => "最近的录音样本太少，暂不满足增量训练条件"@,
    }
}

impl RetrainRefusal {
    /// The message recorded for the refusal.
    pub fn message(&self) -> (s: String)
        ensures
            s@ == refusal_message(*self),
    {
        match self {
            RetrainRefusal::NoFeedback => String::from_str("没有可用的反馈数据"),
            RetrainRefusal::TooFewRecent => String::from_str("最近的录音样本太少，暂不满足增量训练条件"),
        }
    }
}

/// Whether a retrain may run on `feedback_rows` feedback rows and
/// `replay_rows` recent chunks: it needs some feedback, then at least
/// `MIN_REPLAY_ROWS` chunks.
pub fn retrain_precheck(feedback_rows: usize, replay_rows: usize) -> (r: Result<(), RetrainRefusal>)
    ensures
        feedback_rows == 0 ==> r == Err::<(), RetrainRefusal>(RetrainRefusal::NoFeedback),
        feedback_rows > 0 && replay_rows < MIN_REPLAY_ROWS ==> r == Err::<(), RetrainRefusal>(RetrainRefusal::TooFewRecent),
        feedback_rows > 0 && replay_rows >= MIN_REPLAY_ROWS ==> r is Ok,
{
    if feedback_rows == 0 {
        Err(RetrainRefusal::NoFeedback)
    } else if replay_rows < MIN_REPLAY_ROWS {
        Err(RetrainRefusal::TooFewRecent)
    } else {
        Ok(())
    }
}

} // verus!
