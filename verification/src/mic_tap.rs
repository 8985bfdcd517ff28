//! Grouping of detected shell taps into single/double-tap gestures.
//!
//! The audio side (loudness, spectral features, the classifier, the voice
//! activity detector) turns each chunk into a few facts: whether a tap
//! candidate was raised, whether detection is suppressed (speech or the
//! pairing button), and, for each candidate still waiting, whether the
//! signal has decayed below half of that candidate's own peak. From those
//! facts this module decides which candidates are confirmed, which are
//! dropped, and when a burst of taps is over.
//!
//! Times are monotonic nanoseconds.
use vstd::prelude::*;
use crate::clock::now_millis;
use crate::text::{chars_of, chars_contain_str, contains_seq};

verus! {

/// Minimum gap between two candidates.
pub const DEBOUNCE_NS: u64 = 100_000_000;
/// Taps confirmed within this of the previous one belong to the same group.
pub const TAP_WINDOW_NS: u64 = 450_000_000;
/// A candidate is confirmed (or rejected) this long after it was raised.
pub const TAP_CONFIRM_DELAY_NS: u64 = 150_000_000;
/// Chunks of loudness history needed before detection starts.
pub const RMS_WINDOW_LEN: usize = 20;
/// How long a finalized group shows as active.
pub const ACTIVE_WINDOW_MS: u64 = 700;
/// How long after a pairing-button press or release taps are suppressed.
pub const BUTTON_TAP_SUPPRESS_WINDOW_MS: u64 = 300;

/// A candidate tap waiting for its confirm delay.
#[derive(Clone, Copy)]
pub struct PendingTap {
    pub detected_at: u64,
    pub class: u32,
    /// Bit pattern of the loudness ratio when the candidate was raised, the
    /// yardstick its decay is measured against.
    pub peak_ratio_bits: u32,
    /// Whether the ratio has dropped to half of the candidate's peak since.
    pub seen_decay: bool,
}

/// A confirmed tap.
#[derive(Clone, Copy)]
pub struct ConfirmedTap {
    pub at: u64,
    pub class: u32,
}

/// A finished burst: how many taps, and each one.
pub struct TapGroup {
    pub count: u32,
    pub taps: Vec<ConfirmedTap>,
}

/// A chunk the classifier took for a tap, loud enough and past warm-up.
#[derive(Clone, Copy)]
pub struct Candidate {
    pub class: u32,
    pub peak_ratio_bits: u32,
}

/// The grouping state carried from chunk to chunk.
pub struct DetectionState {
    tap_count: u32,
    last_tap: Option<u64>,
    debounce_until: Option<u64>,
    pending_taps: Vec<PendingTap>,
    group_taps: Vec<ConfirmedTap>,
}

/// The mathematical view of `DetectionState`.
pub struct DetectionView {
    pub tap_count: u32,
    pub last_tap: Option<u64>,
    pub debounce_until: Option<u64>,
    pub pending: Seq<PendingTap>,
    pub taps: Seq<ConfirmedTap>,
}

/// The view of a finished group.
pub open spec fn group_view(g: &TapGroup) -> (u32, Seq<ConfirmedTap>) {
    (g.count, g.taps@)
}

/// Views of a list of finished groups.
pub open spec fn groups_view(gs: Seq<TapGroup>) -> Seq<(u32, Seq<ConfirmedTap>)> {
    Seq::new(gs.len(), |i: int| group_view(&gs[i]))
}

/// `a - b`, or 0 when `b` is later (an earlier instant's distance).
pub open spec fn since(a: u64, b: u64) -> nat {
    if a >= b { (a - b) as nat } else { 0 }
}

/// Whether a candidate's confirm delay has run out.
pub open spec fn is_due(p: PendingTap, now: u64) -> bool {
    since(now, p.detected_at) >= TAP_CONFIRM_DELAY_NS
}

/// How many candidates at the front are due, in order.
pub open spec fn due_prefix(p: Seq<PendingTap>, now: u64) -> nat
    decreases p.len(),
{
    if p.len() == 0 {
        0
    } else {
        let l = due_prefix(p.drop_last(), now);
        if l == p.len() - 1 && is_due(p.last(), now) { p.len() } else { l }
    }
}

/// `due_prefix` counts exactly the due candidates at the front.
pub proof fn lemma_due_prefix(p: Seq<PendingTap>, now: u64)
    ensures
        due_prefix(p, now) <= p.len(),
        forall|j: int| 0 <= j < due_prefix(p, now) ==> is_due(#[trigger] p[j], now),
        due_prefix(p, now) < p.len() ==> !is_due(p[due_prefix(p, now) as int], now),
    decreases p.len(),
{
    if p.len() > 0 {
        let d = p.drop_last();
        lemma_due_prefix(d, now);
        assert forall|j: int| 0 <= j < d.len() implies d[j] == p[j] by {}
    }
}

/// Whether a tap at `now` continues the burst whose last tap was `last`.
pub open spec fn within_window(last: Option<u64>, now: u64) -> bool {
    match last {
        Some(t) => since(now, t) <= TAP_WINDOW_NS,
        None => false,
    }
}

/// The part of the state a confirmation changes: the burst so far.
pub struct Burst {
    pub count: u32,
    pub last_tap: Option<u64>,
    pub taps: Seq<ConfirmedTap>,
}

/// Confirming one due candidate: one that never decayed is dropped; one
/// that did joins the current burst when within the tap window, and
/// otherwise closes the current burst (if any) and starts a new one.
pub open spec fn confirm_one(b: Burst, p: PendingTap, now: u64) -> (Burst, Seq<(u32, Seq<ConfirmedTap>)>) {
    let tap = ConfirmedTap { at: now, class: p.class };
    if !p.seen_decay {
        (b, Seq::empty())
    } else if within_window(b.last_tap, now) {
        (Burst { count: b.count.wrapping_add(1), last_tap: Some(now), taps: b.taps.push(tap) }, Seq::empty())
    } else {
        (
            Burst { count: 1, last_tap: Some(now), taps: seq![tap] },
            if b.count > 0 { seq![(b.count, b.taps)] } else { Seq::empty() },
        )
    }
}

/// Confirming the candidates `due`, in order.
pub open spec fn confirm_all(b: Burst, due: Seq<PendingTap>, now: u64) -> (Burst, Seq<(u32, Seq<ConfirmedTap>)>)
    decreases due.len(),
{
    if due.len() == 0 {
        (b, Seq::empty())
    } else {
        let (b1, g1) = confirm_all(b, due.drop_last(), now);
        let (b2, g2) = confirm_one(b1, due.last(), now);
        (b2, g1 + g2)
    }
}

/// The candidates after this chunk's decay readings.
pub open spec fn mark_decay(p: Seq<PendingTap>, decayed: Seq<bool>) -> Seq<PendingTap> {
    Seq::new(p.len(), |i: int| PendingTap {
        detected_at: p[i].detected_at,
        class: p[i].class,
        peak_ratio_bits: p[i].peak_ratio_bits,
        seen_decay: p[i].seen_decay || decayed[i],
    })
}

/// Whether a new candidate is held back by the debounce.
pub open spec fn is_debounced(debounce_until: Option<u64>, now: u64) -> bool {
    match debounce_until {
        Some(t) => now < t,
        None => false,
    }
}

/// One chunk's effect on the state, and the groups it finishes:
/// 1. each waiting candidate records whether it has decayed;
/// 2. suppression drops every waiting candidate;
/// 3. a candidate is raised unless debounced or suppressed, and restarts
///    the debounce;
/// 4. the due candidates at the front are confirmed in order;
/// 5. with nothing left waiting, a burst whose last tap is older than the
///    tap window is finished.
pub open spec fn chunk_step(
    v: DetectionView,
    now: u64,
    decayed: Seq<bool>,
    suppressed: bool,
    candidate: Option<Candidate>,
) -> (DetectionView, Seq<(u32, Seq<ConfirmedTap>)>) {
    let p1 = if suppressed { Seq::empty() } else { mark_decay(v.pending, decayed) };
    let raise = candidate is Some && !is_debounced(v.debounce_until, now) && !suppressed;
    let p2 = if raise {
        p1.push(PendingTap {
            detected_at: now,
            class: candidate->0.class,
            peak_ratio_bits: candidate->0.peak_ratio_bits,
            seen_decay: false,
        })
    } else {
        p1
    };
    let deb = if raise { Some((now + DEBOUNCE_NS) as u64) } else { v.debounce_until };
    let k = due_prefix(p2, now);
    let (b, gs) = confirm_all(Burst { count: v.tap_count, last_tap: v.last_tap, taps: v.taps }, p2.take(k as int), now);
    let rest = p2.skip(k as int);
    let idle = b.count > 0 && rest.len() == 0 && match b.last_tap {
        Some(t) => since(now, t) > TAP_WINDOW_NS,
        None => false,
    };
    if idle {
        (
            DetectionView { tap_count: 0, last_tap: b.last_tap, debounce_until: deb, pending: rest, taps: Seq::empty() },
            gs.push((b.count, b.taps)),
        )
    } else {
        (DetectionView { tap_count: b.count, last_tap: b.last_tap, debounce_until: deb, pending: rest, taps: b.taps }, gs)
    }
}

/// Whether a chunk raises a new candidate.
pub open spec fn raises(v: DetectionView, now: u64, suppressed: bool, candidate: Option<Candidate>) -> bool {
    candidate is Some && !is_debounced(v.debounce_until, now) && !suppressed
}

/// Two candidates are never raised less than the debounce apart: after a
/// chunk at `now1` raises one, a chunk at `now2` before `now1 + DEBOUNCE_NS`
/// raises none, whatever it hears.
pub proof fn law_debounce(
    v: DetectionView,
    now1: u64,
    decayed1: Seq<bool>,
    suppressed1: bool,
    candidate1: Option<Candidate>,
    now2: u64,
    suppressed2: bool,
    candidate2: Option<Candidate>,
)
    requires
        now1 <= u64::MAX - DEBOUNCE_NS,
        raises(v, now1, suppressed1, candidate1),
        now1 <= now2 < now1 + DEBOUNCE_NS,
    ensures
        !raises(chunk_step(v, now1, decayed1, suppressed1, candidate1).0, now2, suppressed2, candidate2),
{
}

/// A suppressed chunk (speech, or the pairing button) leaves no candidate
/// waiting: every one raised before is dropped and none is raised.
pub proof fn law_suppression_cancels(v: DetectionView, now: u64, decayed: Seq<bool>, candidate: Option<Candidate>)
    ensures
        chunk_step(v, now, decayed, true, candidate).0.pending.len() == 0,
{
    let p2 = Seq::<PendingTap>::empty();
    assert(p2.skip(due_prefix(p2, now) as int) =~= Seq::<PendingTap>::empty());
}

/// The count kept in step with the taps of the burst (modulo the counter's
/// width), and a burst in progress has a last tap.
pub open spec fn burst_wf(count: u32, last_tap: Option<u64>, taps: Seq<ConfirmedTap>) -> bool {
    &&& count as int == taps.len() as int % 0x1_0000_0000
    &&& (taps.len() > 0 ==> last_tap is Some)
}

/// The taps of a list of finished groups, group after group.
pub open spec fn taps_of_groups(gs: Seq<(u32, Seq<ConfirmedTap>)>) -> Seq<ConfirmedTap>
    decreases gs.len(),
{
    if gs.len() == 0 {
        Seq::empty()
    } else {
        taps_of_groups(gs.drop_last()) + gs.last().1
    }
}

/// The taps that confirming the candidates `due` at `now` yields: one for
/// each candidate that has decayed, in order, at `now` and with the
/// candidate's class.
pub open spec fn confirmed_taps(due: Seq<PendingTap>, now: u64) -> Seq<ConfirmedTap>
    decreases due.len(),
{
    if due.len() == 0 {
        Seq::empty()
    } else {
        let rest = confirmed_taps(due.drop_last(), now);
        if due.last().seen_decay {
            rest.push(ConfirmedTap { at: now, class: due.last().class })
        } else {
            rest
        }
    }
}

/// Confirming candidates yields at most one tap each.
pub proof fn lemma_confirmed_taps_len(due: Seq<PendingTap>, now: u64)
    ensures
        confirmed_taps(due, now).len() <= due.len(),
    decreases due.len(),
{
    if due.len() > 0 {
        lemma_confirmed_taps_len(due.drop_last(), now);
    }
}

/// The taps of two lists of groups, one after the other.
pub proof fn lemma_taps_of_groups_add(a: Seq<(u32, Seq<ConfirmedTap>)>, b: Seq<(u32, Seq<ConfirmedTap>)>)
    ensures
        taps_of_groups(a + b) == taps_of_groups(a) + taps_of_groups(b),
    decreases b.len(),
{
    if b.len() == 0 {
        assert(a + b =~= a);
        assert(taps_of_groups(a) + Seq::<ConfirmedTap>::empty() =~= taps_of_groups(a));
    } else {
        let d = b.drop_last();
        lemma_taps_of_groups_add(a, d);
        assert((a + b).drop_last() =~= a + d);
        assert((a + b).last() == b.last());
        assert(taps_of_groups(a) + taps_of_groups(d) + b.last().1 =~= taps_of_groups(a) + (taps_of_groups(d) + b.last().1));
    }
}

/// Appending a group appends its taps.
pub proof fn lemma_taps_of_groups_push(gs: Seq<(u32, Seq<ConfirmedTap>)>, g: (u32, Seq<ConfirmedTap>))
    ensures
        taps_of_groups(gs.push(g)) == taps_of_groups(gs) + g.1,
{
    assert(gs.push(g).drop_last() =~= gs);
}

/// Confirming candidates loses no tap: the taps of the groups it finishes,
/// followed by the taps of the burst it leaves open, are the taps of the
/// burst it started from followed by one tap per decayed candidate, in
/// order. (The burst stays well formed and within the counter's range.)
pub proof fn law_confirm_keeps_taps(b: Burst, due: Seq<PendingTap>, now: u64)
    requires
        burst_wf(b.count, b.last_tap, b.taps),
        b.taps.len() + due.len() < 0x1_0000_0000,
    ensures
        taps_of_groups(confirm_all(b, due, now).1) + confirm_all(b, due, now).0.taps == b.taps + confirmed_taps(due, now),
        burst_wf(confirm_all(b, due, now).0.count, confirm_all(b, due, now).0.last_tap, confirm_all(b, due, now).0.taps),
        confirm_all(b, due, now).0.taps.len() <= b.taps.len() + due.len(),
    decreases due.len(),
{
    if due.len() == 0 {
        assert(taps_of_groups(Seq::<(u32, Seq<ConfirmedTap>)>::empty()) =~= Seq::<ConfirmedTap>::empty());
        assert(Seq::<ConfirmedTap>::empty() + b.taps =~= b.taps + Seq::<ConfirmedTap>::empty());
    } else {
        let d = due.drop_last();
        let x = due.last();
        law_confirm_keeps_taps(b, d, now);
        let (b1, g1) = confirm_all(b, d, now);
        let tap = ConfirmedTap { at: now, class: x.class };
        assert(b1.count as int == b1.taps.len() as int);
        if !x.seen_decay {
            assert(g1 + Seq::<(u32, Seq<ConfirmedTap>)>::empty() =~= g1);
        } else if within_window(b1.last_tap, now) {
            assert(g1 + Seq::<(u32, Seq<ConfirmedTap>)>::empty() =~= g1);
            assert(taps_of_groups(g1) + b1.taps.push(tap) =~= (taps_of_groups(g1) + b1.taps).push(tap));
            assert(b.taps + confirmed_taps(d, now).push(tap) =~= (b.taps + confirmed_taps(d, now)).push(tap));
        } else {
            if b1.count > 0 {
                let g = (b1.count, b1.taps);
                assert(g1 + seq![g] =~= g1.push(g));
                lemma_taps_of_groups_push(g1, g);
                assert(taps_of_groups(g1) + b1.taps + seq![tap] =~= (taps_of_groups(g1) + b1.taps).push(tap));
            } else {
                assert(b1.taps.len() == 0);
                assert(g1 + Seq::<(u32, Seq<ConfirmedTap>)>::empty() =~= g1);
                assert(taps_of_groups(g1) + seq![tap] =~= (taps_of_groups(g1) + b1.taps).push(tap));
            }
            assert(b.taps + confirmed_taps(d, now).push(tap) =~= (b.taps + confirmed_taps(d, now)).push(tap));
        }
    }
}

/// A decayed candidate confirmed outside the tap window of an open burst
/// finishes that burst: it is the first group returned, whole.
pub proof fn law_confirm_closes_burst(b: Burst, due: Seq<PendingTap>, now: u64)
    requires
        burst_wf(b.count, b.last_tap, b.taps),
        b.taps.len() + due.len() < 0x1_0000_0000,
        b.taps.len() > 0,
        due.len() > 0,
        due[0].seen_decay,
        !within_window(b.last_tap, now),
    ensures
        confirm_all(b, due, now).1.len() > 0,
        confirm_all(b, due, now).1[0] == (b.count, b.taps),
    decreases due.len(),
{
    let d = due.drop_last();
    assert(b.count as int == b.taps.len() as int);
    if due.len() == 1 {
        assert(d =~= Seq::<PendingTap>::empty());
        assert(due.last() == due[0]);
        assert(confirm_all(b, d, now) == (b, Seq::<(u32, Seq<ConfirmedTap>)>::empty()));
        assert(Seq::<(u32, Seq<ConfirmedTap>)>::empty() + seq![(b.count, b.taps)] =~= seq![(b.count, b.taps)]);
    } else {
        assert(d[0] == due[0]);
        law_confirm_closes_burst(b, d, now);
        let (b1, g1) = confirm_all(b, d, now);
        let g2 = confirm_one(b1, due.last(), now).1;
        assert((g1 + g2)[0] == g1[0]);
    }
}

/// The candidates waiting once a chunk's decay readings, suppression and
/// new candidate are taken in (steps 1-3 of `chunk_step`).
pub open spec fn waiting_after(
    v: DetectionView,
    now: u64,
    decayed: Seq<bool>,
    suppressed: bool,
    candidate: Option<Candidate>,
) -> Seq<PendingTap> {
    let p1 = if suppressed { Seq::empty() } else { mark_decay(v.pending, decayed) };
    if candidate is Some && !is_debounced(v.debounce_until, now) && !suppressed {
        p1.push(PendingTap {
            detected_at: now,
            class: candidate->0.class,
            peak_ratio_bits: candidate->0.peak_ratio_bits,
            seen_decay: false,
        })
    } else {
        p1
    }
}

/// No confirmed tap is lost in a chunk: the candidates still waiting after
/// it are the tail of those waiting in it, the ones before them were
/// confirmed, and the taps of the groups the chunk finishes, followed by
/// the burst it leaves open, are the open burst it started with followed
/// by one tap for each of those candidates that had decayed. Chained over
/// chunks, every confirmed tap ends up, in order, in exactly one finished
/// group or in the open burst.
pub proof fn law_no_tap_lost(v: DetectionView, now: u64, decayed: Seq<bool>, suppressed: bool, candidate: Option<Candidate>)
    requires
        burst_wf(v.tap_count, v.last_tap, v.taps),
        v.taps.len() + v.pending.len() + 1 < 0x1_0000_0000,
    ensures
        ({
            let (v2, gs) = chunk_step(v, now, decayed, suppressed, candidate);
            let p = waiting_after(v, now, decayed, suppressed, candidate);
            &&& v2.pending.len() <= p.len()
            &&& v2.pending == p.skip(p.len() - v2.pending.len())
            &&& taps_of_groups(gs) + v2.taps == v.taps + confirmed_taps(p.take(p.len() - v2.pending.len()), now)
            &&& burst_wf(v2.tap_count, v2.last_tap, v2.taps)
            &&& v2.taps.len() + v2.pending.len() <= v.taps.len() + v.pending.len() + 1
        }),
{
    let p = waiting_after(v, now, decayed, suppressed, candidate);
    let k = due_prefix(p, now);
    lemma_due_prefix(p, now);
    let b0 = Burst { count: v.tap_count, last_tap: v.last_tap, taps: v.taps };
    law_confirm_keeps_taps(b0, p.take(k as int), now);
    let (b, gs) = confirm_all(b0, p.take(k as int), now);
    lemma_confirmed_taps_len(p.take(k as int), now);
    assert(p.len() <= v.pending.len() + 1);
    assert(p.skip(k as int).len() == p.len() - k);
    assert(p.len() - (p.len() - k) == k);
    let idle = b.count > 0 && p.skip(k as int).len() == 0 && match b.last_tap {
        Some(t) => since(now, t) > TAP_WINDOW_NS,
        None => false,
    };
    if idle {
        lemma_taps_of_groups_push(gs, (b.count, b.taps));
        assert(taps_of_groups(gs) + b.taps + Seq::<ConfirmedTap>::empty() =~= taps_of_groups(gs) + b.taps);
    }
}

/// A candidate confirmed in a chunk outside the tap window of a burst
/// still open returns that burst, whole, as the first finished group.
pub proof fn law_out_of_window_finishes_burst(
    v: DetectionView,
    now: u64,
    decayed: Seq<bool>,
    suppressed: bool,
    candidate: Option<Candidate>,
)
    requires
        burst_wf(v.tap_count, v.last_tap, v.taps),
        v.taps.len() + v.pending.len() + 1 < 0x1_0000_0000,
        v.taps.len() > 0,
        waiting_after(v, now, decayed, suppressed, candidate).len() > 0,
        is_due(waiting_after(v, now, decayed, suppressed, candidate)[0], now),
        waiting_after(v, now, decayed, suppressed, candidate)[0].seen_decay,
        !within_window(v.last_tap, now),
    ensures
        chunk_step(v, now, decayed, suppressed, candidate).1.len() > 0,
        chunk_step(v, now, decayed, suppressed, candidate).1[0] == (v.tap_count, v.taps),
{
    let p = waiting_after(v, now, decayed, suppressed, candidate);
    let k = due_prefix(p, now);
    lemma_due_prefix(p, now);
    assert(k > 0);
    let b0 = Burst { count: v.tap_count, last_tap: v.last_tap, taps: v.taps };
    assert(p.take(k as int)[0] == p[0]);
    law_confirm_closes_burst(b0, p.take(k as int), now);
    let (b, gs) = confirm_all(b0, p.take(k as int), now);
    assert(gs.push((b.count, b.taps))[0] == gs[0]);
}

/// What one chunk tells the grouping: its time, the decay reading of each
/// waiting candidate, whether detection is suppressed, and the candidate
/// it raised, if any.
pub struct ChunkFacts {
    pub now: u64,
    pub decayed: Seq<bool>,
    pub suppressed: bool,
    pub candidate: Option<Candidate>,
}

/// The state after a run of chunks, and the groups they finished, oldest
/// first.
pub open spec fn run(v: DetectionView, cs: Seq<ChunkFacts>) -> (DetectionView, Seq<(u32, Seq<ConfirmedTap>)>)
    decreases cs.len(),
{
    if cs.len() == 0 {
        (v, Seq::empty())
    } else {
        let (v1, g1) = run(v, cs.drop_last());
        let c = cs.last();
        let (v2, g2) = chunk_step(v1, c.now, c.decayed, c.suppressed, c.candidate);
        (v2, g1 + g2)
    }
}

/// The taps a run of chunks confirmed, in order: in each chunk, one per
/// decayed candidate among those that stopped waiting in it.
pub open spec fn run_confirmed(v: DetectionView, cs: Seq<ChunkFacts>) -> Seq<ConfirmedTap>
    decreases cs.len(),
{
    if cs.len() == 0 {
        Seq::empty()
    } else {
        let v1 = run(v, cs.drop_last()).0;
        let c = cs.last();
        let p = waiting_after(v1, c.now, c.decayed, c.suppressed, c.candidate);
        let v2 = chunk_step(v1, c.now, c.decayed, c.suppressed, c.candidate).0;
        run_confirmed(v, cs.drop_last()) + confirmed_taps(p.take(p.len() - v2.pending.len()), c.now)
    }
}

/// Over any run of chunks no confirmed tap is lost: the taps of all the
/// groups returned, followed by the burst still open, are the open burst
/// the run started with followed by every tap confirmed during the run,
/// in order.
pub proof fn law_run_keeps_taps(v: DetectionView, cs: Seq<ChunkFacts>)
    requires
        burst_wf(v.tap_count, v.last_tap, v.taps),
        v.taps.len() + v.pending.len() + cs.len() + 1 < 0x1_0000_0000,
    ensures
        taps_of_groups(run(v, cs).1) + run(v, cs).0.taps == v.taps + run_confirmed(v, cs),
        burst_wf(run(v, cs).0.tap_count, run(v, cs).0.last_tap, run(v, cs).0.taps),
        run(v, cs).0.taps.len() + run(v, cs).0.pending.len() <= v.taps.len() + v.pending.len() + cs.len(),
    decreases cs.len(),
{
    if cs.len() == 0 {
        assert(taps_of_groups(Seq::<(u32, Seq<ConfirmedTap>)>::empty()) =~= Seq::<ConfirmedTap>::empty());
        assert(Seq::<ConfirmedTap>::empty() + v.taps =~= v.taps + Seq::<ConfirmedTap>::empty());
    } else {
        let d = cs.drop_last();
        law_run_keeps_taps(v, d);
        let (v1, g1) = run(v, d);
        let c = cs.last();
        law_no_tap_lost(v1, c.now, c.decayed, c.suppressed, c.candidate);
        let (v2, g2) = chunk_step(v1, c.now, c.decayed, c.suppressed, c.candidate);
        let p = waiting_after(v1, c.now, c.decayed, c.suppressed, c.candidate);
        let t = confirmed_taps(p.take(p.len() - v2.pending.len()), c.now);
        lemma_taps_of_groups_add(g1, g2);
        assert(taps_of_groups(g1) + taps_of_groups(g2) + v2.taps =~= taps_of_groups(g1) + (taps_of_groups(g2) + v2.taps));
        assert(taps_of_groups(g1) + (v1.taps + t) =~= (taps_of_groups(g1) + v1.taps) + t);
        assert(v.taps + run_confirmed(v, d) + t =~= v.taps + (run_confirmed(v, d) + t));
    }
}

impl DetectionState {
    /// The state's view.
    pub closed spec fn view(&self) -> DetectionView {
        DetectionView {
            tap_count: self.tap_count,
            last_tap: self.last_tap,
            debounce_until: self.debounce_until,
            pending: self.pending_taps@,
            taps: self.group_taps@,
        }
    }

    /// Well-formedness: see `burst_wf`.
    pub open spec fn wf(&self) -> bool {
        burst_wf(self.view().tap_count, self.view().last_tap, self.view().taps)
    }

    /// A fresh state: no burst, nothing waiting.
    pub fn new() -> (s: DetectionState)
        ensures
            s.view().tap_count == 0,
            s.view().last_tap is None,
            s.view().debounce_until is None,
            s.view().pending == Seq::<PendingTap>::empty(),
            s.view().taps == Seq::<ConfirmedTap>::empty(),
            s.wf(),
    {
        DetectionState {
            tap_count: 0,
            last_tap: None,
            debounce_until: None,
            pending_taps: Vec::new(),
            group_taps: Vec::new(),
        }
    }

    /// The candidates waiting for confirmation, oldest first; the caller
    /// measures each one's decay against its `peak_ratio_bits`.
    pub fn pending(&self) -> (p: Vec<PendingTap>)
        ensures
            p@ == self.view().pending,
    {
        let mut out: Vec<PendingTap> = Vec::new();
        let n = self.pending_taps.len();
        let mut i: usize = 0;
        while i < n
            invariant
                n == self.pending_taps@.len(),
                i <= n,
                out@ == self.pending_taps@.take(i as int),
            decreases n - i,
        {
            out.push(self.pending_taps[i]);
            assert(self.pending_taps@.take(i + 1) =~= self.pending_taps@.take(i as int).push(self.pending_taps@[i as int]));
            i += 1;
        }
        assert(self.pending_taps@.take(n as int) =~= self.pending_taps@);
        out
    }

    /// Processes one chunk (see `chunk_step`). `decayed[i]` says whether
    /// the `i`-th waiting candidate's ratio is below half its peak in this
    /// chunk. Returns the bursts this chunk finished, oldest first.
    pub fn on_chunk(
        &mut self,
        now: u64,
        decayed: &Vec<bool>,
        suppressed: bool,
        candidate: Option<Candidate>,
    ) -> (groups: Vec<TapGroup>)
        requires
            decayed@.len() == old(self).view().pending.len(),
            now <= u64::MAX - DEBOUNCE_NS,
        ensures
            (final(self).view(), groups_view(groups@)) == chunk_step(old(self).view(), now, decayed@, suppressed, candidate),
            old(self).wf() ==> final(self).wf(),
            old(self).wf() ==> forall|i: int| 0 <= i < groups@.len() ==> {
                &&& #[trigger] groups@[i].taps@.len() > 0
                &&& groups@[i].count as int == groups@[i].taps@.len() as int % 0x1_0000_0000
            },
    {
        let ghost v0 = self.view();
        // 1-2: decay readings, then suppression.
        if suppressed {
            self.pending_taps = Vec::new();
        } else {
            let n = self.pending_taps.len();
            let mut i: usize = 0;
            while i < n
                invariant
                    n == self.pending_taps@.len(),
                    n == decayed@.len(),
                    n == v0.pending.len(),
                    i <= n,
                    forall|j: int| 0 <= j < i ==> #[trigger] self.pending_taps@[j] == mark_decay(v0.pending, decayed@)[j],
                    forall|j: int| i <= j < n ==> #[trigger] self.pending_taps@[j] == v0.pending[j],
                    self.tap_count == v0.tap_count,
                    self.last_tap == v0.last_tap,
                    self.debounce_until == v0.debounce_until,
                    self.group_taps@ == v0.taps,
                decreases n - i,
            {
                let mut p = self.pending_taps[i];
                if decayed[i] {
                    p.seen_decay = true;
                }
                self.pending_taps.set(i, p);
                i += 1;
            }
            assert(self.pending_taps@ =~= mark_decay(v0.pending, decayed@));
        }
        let ghost p1 = self.pending_taps@;
        assert(p1 == (if suppressed { Seq::<PendingTap>::empty() } else { mark_decay(v0.pending, decayed@) }));
        // 3: a new candidate.
        let debounced = match self.debounce_until {
            Some(t) => now < t,
            None => false,
        };
        match candidate {
            Some(c) => {
                if !debounced && !suppressed {
                    self.pending_taps.push(PendingTap {
                        detected_at: now,
                        class: c.class,
                        peak_ratio_bits: c.peak_ratio_bits,
                        seen_decay: false,
                    });
                    self.debounce_until = Some(now + DEBOUNCE_NS);
                }
            },
            None => {},
        }
        let ghost p2 = self.pending_taps@;
        let ghost deb = self.debounce_until;
        proof {
            let raise = candidate is Some && !is_debounced(v0.debounce_until, now) && !suppressed;
            if raise {
                assert(p2 == p1.push(PendingTap {
                    detected_at: now,
                    class: candidate->0.class,
                    peak_ratio_bits: candidate->0.peak_ratio_bits,
                    seen_decay: false,
                }));
                assert(deb == Some((now + DEBOUNCE_NS) as u64));
            } else {
                assert(p2 == p1);
                assert(deb == v0.debounce_until);
            }
        }
        // 4: confirm the due front.
        let mut groups: Vec<TapGroup> = Vec::new();
        let ghost b0 = Burst { count: v0.tap_count, last_tap: v0.last_tap, taps: v0.taps };
        let mut k: usize = 0;
        let n2 = self.pending_taps.len();
        assert(p2.take(0) =~= Seq::<PendingTap>::empty());
        while k < n2 && now.saturating_sub(self.pending_taps[k].detected_at) >= TAP_CONFIRM_DELAY_NS
            invariant
                n2 == p2.len(),
                self.pending_taps@ == p2,
                self.debounce_until == deb,
                k <= n2,
                forall|j: int| 0 <= j < k ==> is_due(#[trigger] p2[j], now),
                ({
                    let (b, gs) = confirm_all(b0, p2.take(k as int), now);
                    &&& self.tap_count == b.count
                    &&& self.last_tap == b.last_tap
                    &&& self.group_taps@ == b.taps
                    &&& groups_view(groups@) == gs
                }),
                burst_wf(v0.tap_count, v0.last_tap, v0.taps) ==> burst_wf(self.tap_count, self.last_tap, self.group_taps@),
                burst_wf(v0.tap_count, v0.last_tap, v0.taps) ==> forall|i: int| 0 <= i < groups@.len() ==> {
                    &&& #[trigger] groups@[i].taps@.len() > 0
                    &&& groups@[i].count as int == groups@[i].taps@.len() as int % 0x1_0000_0000
                },
            decreases n2 - k,
        {
            let p = self.pending_taps[k];
            let ghost before_groups = groups@;
            let ghost before_taps = self.group_taps@;
            proof {
                assert(p2.take(k + 1).drop_last() =~= p2.take(k as int));
                assert(p2.take(k + 1).last() == p2[k as int]);
            }
            if p.seen_decay {
                let tap = ConfirmedTap { at: now, class: p.class };
                let within = match self.last_tap {
                    Some(t) => now.saturating_sub(t) <= TAP_WINDOW_NS,
                    None => false,
                };
                if within {
                    self.tap_count = self.tap_count.wrapping_add(1);
                    self.group_taps.push(tap);
                    proof {
                        assert(groups_view(groups@) =~= groups_view(before_groups) + Seq::empty());
                        if burst_wf(v0.tap_count, v0.last_tap, v0.taps) {
                            assert(self.tap_count as int == self.group_taps@.len() as int % 0x1_0000_0000) by (nonlinear_arith)
                                requires
                                    before_taps.len() as int % 0x1_0000_0000 + 1 < 0x1_0000_0000 ==> self.tap_count == before_taps.len() as int % 0x1_0000_0000 + 1,
                                    before_taps.len() as int % 0x1_0000_0000 + 1 == 0x1_0000_0000 ==> self.tap_count == 0,
                                    self.group_taps@.len() == before_taps.len() + 1,
                            {
                            }
                        }
                    }
                } else {
                    if self.tap_count > 0 {
                        let mut taken: Vec<ConfirmedTap> = Vec::new();
                        std::mem::swap(&mut taken, &mut self.group_taps);
                        groups.push(TapGroup { count: self.tap_count, taps: taken });
                        proof {
                            assert(groups_view(groups@) =~= groups_view(before_groups) + seq![(groups@.last().count, before_taps)]);
                        }
                    }
                    self.tap_count = 1;
                    self.group_taps = Vec::new();
                    self.group_taps.push(tap);
                    proof {
                        assert(self.group_taps@ =~= seq![tap]);
                    }
                }
                self.last_tap = Some(now);
            } else {
                proof {
                    assert(groups_view(groups@) =~= groups_view(before_groups) + Seq::empty());
                }
            }
            k += 1;
        }
        proof {
            lemma_due_prefix(p2, now);
            let d = due_prefix(p2, now);
            if k < d {
                assert(is_due(p2[k as int], now));
            } else if d < k {
                assert(is_due(p2[d as int], now));
            }
        }
        // Drop the confirmed front.
        let mut rest: Vec<PendingTap> = Vec::new();
        let mut j: usize = k;
        while j < n2
            invariant
                n2 == p2.len(),
                self.pending_taps@ == p2,
                k <= j <= n2,
                rest@ == p2.subrange(k as int, j as int),
            decreases n2 - j,
        {
            rest.push(self.pending_taps[j]);
            assert(p2.subrange(k as int, j + 1) =~= p2.subrange(k as int, j as int).push(p2[j as int]));
            j += 1;
        }
        self.pending_taps = rest;
        assert(self.pending_taps@ =~= p2.skip(k as int));
        // 5: a burst gone quiet is finished.
        let idle = self.tap_count > 0 && self.pending_taps.len() == 0 && match self.last_tap {
            Some(t) => now.saturating_sub(t) > TAP_WINDOW_NS,
            None => false,
        };
        let ghost bk = confirm_all(Burst { count: v0.tap_count, last_tap: v0.last_tap, taps: v0.taps }, p2.take(k as int), now);
        assert(self.tap_count == bk.0.count);
        assert(self.last_tap == bk.0.last_tap);
        assert(groups_view(groups@) == bk.1);
        if idle {
            let mut taken: Vec<ConfirmedTap> = Vec::new();
            std::mem::swap(&mut taken, &mut self.group_taps);
            let ghost before_groups = groups@;
            groups.push(TapGroup { count: self.tap_count, taps: taken });
            self.tap_count = 0;
            proof {
                assert(groups_view(groups@) =~= groups_view(before_groups).push((groups@.last().count, groups@.last().taps@)));
            }
        }
        proof {
            let (vs, gs) = chunk_step(v0, now, decayed@, suppressed, candidate);
            assert(self.view().pending == vs.pending);
            assert(self.view().debounce_until == vs.debounce_until);
            assert(self.view().tap_count == vs.tap_count);
            assert(self.view().last_tap == vs.last_tap);
            assert(self.view().taps == vs.taps);
            assert(groups_view(groups@) == gs);
        }
        groups
    }
}

/// What the test screen shows of the last tap group.
pub struct TapStatus {
    pub count: u8,
    pub active: bool,
    pub device_found: bool,
}

/// Bursts of three or more taps are reported as double taps.
pub open spec fn reported(count: u32) -> u8 {
    if count < 2 { count as u8 } else { 2 }
}

/// The number of taps a group is reported as: one or two.
pub fn reported_count(count: u32) -> (r: u8)
    ensures
        r == reported(count),
        r <= 2,
{
    if count < 2 { count as u8 } else { 2 }
}

/// What a finished group does to the pie menu.
#[derive(PartialEq, Eq, Structural, Clone, Copy)]
pub enum GroupAction {
    Nothing,
    /// Move the highlight one slot on (wrapping).
    Navigate,
    /// Open the closed menu.
    Open,
}

/// While the menu is showing, a single tap moves the highlight on; while
/// it is closed, a double tap opens it. Anything else does nothing.
pub fn group_action(count: u32, menu_showing: bool) -> (a: GroupAction)
    ensures
        a == group_action_spec(count, menu_showing),
{
    let r = reported_count(count);
    if menu_showing {
        if r == 1 { GroupAction::Navigate } else { GroupAction::Nothing }
    } else if r == 2 {
        GroupAction::Open
    } else {
        GroupAction::Nothing
    }
}

/// The watcher's record of the last finished group and of the device.
pub struct MicTapWatcher {
    pub last_group_count: u8,
    pub last_group_millis: u64,
    pub device_found: bool,
    /// Confirmation times of the last group's taps, for feedback reports.
    pub last_group_taps: Vec<u64>,
}

impl MicTapWatcher {
    /// Nothing seen yet.
    pub fn new() -> (w: MicTapWatcher)
        ensures
            w.last_group_count == 0,
            w.last_group_millis == 0,
            !w.device_found,
            w.last_group_taps@ == Seq::<u64>::empty(),
    {
        MicTapWatcher { last_group_count: 0, last_group_millis: 0, device_found: false, last_group_taps: Vec::new() }
    }

    /// The status at `now` (milliseconds): the last group is active within
    /// its window, and its count shows only while active.
    pub fn status_at(&self, now: u64) -> (st: TapStatus)
        ensures
            st.active == (self.last_group_millis != 0
                && crate::pairing_button::elapsed(now, self.last_group_millis) < ACTIVE_WINDOW_MS),
            st.count == (if st.active { self.last_group_count } else { 0 }),
            st.device_found == self.device_found,
    {
        let last = self.last_group_millis;
        let active = last != 0 && now.saturating_sub(last) < ACTIVE_WINDOW_MS;
        TapStatus { count: if active { self.last_group_count } else { 0 }, active, device_found: self.device_found }
    }

    /// The status by the current time.
    pub fn status(&self) -> (st: TapStatus)
        ensures
            st.count <= self.last_group_count,
            st.device_found == self.device_found,
            st.active ==> self.last_group_millis != 0,
    {
        let now = now_millis();
        self.status_at(now)
    }

    /// Records a finished group of `count` taps confirmed at `taps` at `now`
    /// (replacing the previous group's) and says what it does to the pie
    /// menu (see `group_action`).
    pub fn finalize_group(&mut self, count: u32, taps: Vec<u64>, now: u64, menu_showing: bool) -> (a: GroupAction)
        ensures
            final(self).last_group_count == reported(count),
            final(self).last_group_millis == now,
            final(self).last_group_taps@ == taps@,
            final(self).device_found == old(self).device_found,
            a == group_action_spec(count, menu_showing),
    {
        self.last_group_count = reported_count(count);
        self.last_group_millis = now;
        self.last_group_taps = taps;
        group_action(count, menu_showing)
    }
}

/// See `group_action`.
pub open spec fn group_action_spec(count: u32, menu_showing: bool) -> GroupAction {
    if menu_showing {
        if reported(count) == 1 { GroupAction::Navigate } else { GroupAction::Nothing }
    } else if reported(count) == 2 {
        GroupAction::Open
    } else {
        GroupAction::Nothing
    }
}

/// What `str::to_lowercase` gives for a text: Unicode's lower-case
/// mapping, character by character (some characters map to several).
pub uninterp spec fn lowercase(s: Seq<char>) -> Seq<char>;

/// `str::to_lowercase`: the text in lower case. Its result is the named
/// mapping applied to the text.
#[verifier::external_body]
fn to_lowercase(s: &str) -> (r: String)
    ensures
        r@ == lowercase(s@),
{
    s.to_lowercase()
}

/// Whether a lower-cased device name names the receiver's microphone.
pub fn names_dji_mic(lower: &str) -> (r: bool)
    ensures
        r == (contains_seq(lower@, "mic rx"@) || contains_seq(lower@, "wireless mic"@) || contains_seq(lower@, "dji"@)),
{
    let v = chars_of(lower);
    chars_contain_str(&v, "mic rx") || chars_contain_str(&v, "wireless mic") || chars_contain_str(&v, "dji")
}

/// Whether an audio input device name is the receiver's: its exact string
/// varies with driver and locale, so the lower-cased name is searched for
/// a few telling parts.
pub fn is_dji_mic_name(name: &str) -> (r: bool)
    ensures
        r == (contains_seq(lowercase(name@), "mic rx"@) || contains_seq(lowercase(name@), "wireless mic"@)
            || contains_seq(lowercase(name@), "dji"@)),
{
    let lower = to_lowercase(name);
    names_dji_mic(lower.as_str())
}

/// The magnitude of a sample.
pub open spec fn magnitude(s: i16) -> nat {
    if s < 0 { (-(s as int)) as nat } else { s as nat }
}

/// The largest sample magnitude (0 for no samples).
pub open spec fn max_magnitude(s: Seq<i16>) -> nat
    decreases s.len(),
{
    if s.len() == 0 {
        0
    } else {
        let m = max_magnitude(s.drop_last());
        if magnitude(s.last()) > m { magnitude(s.last()) } else { m }
    }
}

/// The chunk's peak: its largest sample magnitude.
pub fn peak_abs(samples: &[i16]) -> (p: u32)
    ensures
        p == max_magnitude(samples@),
        p <= 32768,
{
    let n = samples.len();
    let mut m: u32 = 0;
    let mut i: usize = 0;
    while i < n
        invariant
            n == samples@.len(),
            i <= n,
            m == max_magnitude(samples@.take(i as int)),
            m <= 32768,
        decreases n - i,
    {
        let s = samples[i];
        let a: u32 = if s < 0 { (-(s as i32)) as u32 } else { s as u32 };
        proof {
            assert(samples@.take(i + 1).drop_last() =~= samples@.take(i as int));
        }
        if a > m {
            m = a;
        }
        i += 1;
    }
    assert(samples@.take(n as int) =~= samples@);
    m
}

/// Whether two neighbouring samples lie on different sides of zero (zero
/// counting as positive).
pub open spec fn crosses(a: i16, b: i16) -> bool {
    (a >= 0) != (b >= 0)
}

/// How many neighbouring pairs among the first `n` samples cross zero.
pub open spec fn crossings(s: Seq<i16>, n: int) -> nat
    decreases n,
{
    if n < 2 {
        0
    } else {
        crossings(s, n - 1) + if crosses(s[n - 2], s[n - 1]) { 1nat } else { 0nat }
    }
}

/// How many neighbouring pairs of samples cross zero; the zero-crossing
/// rate is this over one less than the number of samples.
pub fn zero_crossings(samples: &[i16]) -> (c: usize)
    ensures
        c == crossings(samples@, samples@.len() as int),
{
    let n = samples.len();
    if n < 2 {
        return 0;
    }
    let mut c: usize = 0;
    let mut i: usize = 1;
    while i < n
        invariant
            n == samples@.len(),
            1 <= i <= n,
            c == crossings(samples@, i as int),
            c < i,
        decreases n - i,
    {
        if (samples[i - 1] >= 0) != (samples[i] >= 0) {
            c += 1;
        }
        i += 1;
    }
    c
}

} // verus!
