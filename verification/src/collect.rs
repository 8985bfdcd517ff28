//! Decisions of the stand-alone detection test tool: which mode its
//! arguments select, the recording phases each collection mode runs, the
//! labels a capture window's chunks get, and whether an existing samples
//! file has the current columns. Audio, the console and files are the
//! caller's part.
use vstd::prelude::*;
use crate::text::{chars_of, chars_eq_str};

verus! {

/// The samples file's header line.
pub const CSV_HEADER: &'static str = "label,peak,rms,ratio,zcr,novelty,band0,band1,band2,band3,band4,band5,band6,band7,band8,band9,band10,band11,attack_pos,energy_skew,delta_ratio,delta_novelty";
/// How many columns a samples row has.
pub const CSV_COLUMNS: usize = 22;
/// A neighbour of a capture window's loudest chunk is labelled a tap only
/// if its peak is at least this.
pub const CAPTURE_NEIGHBOR_MIN_PEAK: u32 = 1200;
/// Seconds of countdown before each phase.
pub const PREPARE_SECONDS: u64 = 10;
/// Pause after each capture window, in milliseconds.
pub const CAPTURE_PAUSE_MS: u64 = 300;

/// What the tool was asked to do.
#[derive(PartialEq, Eq, Structural, Clone, Copy)]
pub enum Mode {
    /// Live detection (no recognised subcommand).
    Detect,
    /// The six original phases.
    Collect,
    /// The button-press and blowing hard-negative phases.
    CollectExtra,
    /// The shell-friction hard-negative phase.
    CollectFriction,
    /// Training; `bake_default` also refreshes the built-in model.
    Train { bake_default: bool },
}

/// Whether some argument is exactly `lit`.
pub open spec fn has_arg(args: Seq<String>, lit: Seq<char>) -> bool {
    exists|i: int| 0 <= i < args.len() && #[trigger] args[i]@ == lit
}

/// The mode the first argument after the program name selects.
pub open spec fn mode_of(args: Seq<String>) -> Mode {
    if args.len() < 2 {
        Mode::Detect
    } else if args[1]@ == "collect"@ {
        Mode::Collect
    } else if args[1]@ == "collect-extra"@ {
        Mode::CollectExtra
    } else if args[1]@ == "collect-friction"@ {
        Mode::CollectFriction
    } else if args[1]@ == "train"@ {
        Mode::Train { bake_default: has_arg(args, "--bake-default"@) }
    } else {
        Mode::Detect
    }
}

/// The mode the command line selects (see `mode_of`).
pub fn run_mode(args: &Vec<String>) -> (m: Mode)
    ensures
        m == mode_of(args@),
{
    if args.len() < 2 {
        return Mode::Detect;
    }
    let a = chars_of(args[1].as_str());
    if chars_eq_str(&a, "collect") {
        Mode::Collect
    } else if chars_eq_str(&a, "collect-extra") {
        Mode::CollectExtra
    } else if chars_eq_str(&a, "collect-friction") {
        Mode::CollectFriction
    } else if chars_eq_str(&a, "train") {
        let n = args.len();
        let mut bake = false;
        let mut i: usize = 0;
        while i < n
            invariant
                n == args@.len(),
                i <= n,
                bake == exists|j: int| 0 <= j < i && #[trigger] args@[j]@ == "--bake-default"@,
            decreases n - i,
        {
            if chars_eq_str(&chars_of(args[i].as_str()), "--bake-default") {
                bake = true;
            }
            i += 1;
        }
        Mode::Train { bake_default: bake }
    } else {
        Mode::Detect
    }
}

/// One recording phase.
#[derive(PartialEq, Eq, Structural, Clone, Copy)]
pub enum Phase {
    /// Record for `seconds`, every chunk labelled background.
    Passive { seconds: u64 },
    /// `count` capture windows of `window_ms`, each started by the user: a
    /// tap phase labels the loudest chunk (and loud neighbours) `class`, a
    /// `background` phase labels the whole window background.
    Captures { class: u8, count: u32, window_ms: u64, background: bool },
}

/// The phases each collection mode runs, in order.
pub open spec fn phases_of(m: Mode) -> Seq<Phase> {
    match m {
        Mode::Collect => seq![
            Phase::Passive { seconds: 8 },
            Phase::Passive { seconds: 10 },
            Phase::Passive { seconds: 10 },
            Phase::Passive { seconds: 60 },
            Phase::Captures { class: 1, count: 30, window_ms: 600, background: false },
            Phase::Captures { class: 2, count: 30, window_ms: 600, background: false },
        ],
        Mode::CollectExtra => seq![
            Phase::Captures { class: 0, count: 30, window_ms: 700, background: true },
            Phase::Captures { class: 0, count: 30, window_ms: 700, background: true },
        ],
        Mode::CollectFriction => seq![
            Phase::Captures { class: 0, count: 30, window_ms: 800, background: true },
        ],
        _ => Seq::empty(),
    }
}

/// The phases `m` runs: quiet, speech, loud speech, other sounds, nail
/// taps, pad taps for the full collection; pairing-button presses and
/// blowing for the extra one; shell friction for the last.
pub fn collect_phases(m: Mode) -> (p: Vec<Phase>)
    ensures
        p@ == phases_of(m),
{
    match m {
        Mode::Collect => vec![
            Phase::Passive { seconds: 8 },
            Phase::Passive { seconds: 10 },
            Phase::Passive { seconds: 10 },
            Phase::Passive { seconds: 60 },
            Phase::Captures { class: 1, count: 30, window_ms: 600, background: false },
            Phase::Captures { class: 2, count: 30, window_ms: 600, background: false },
        ],
        Mode::CollectExtra => vec![
            Phase::Captures { class: 0, count: 30, window_ms: 700, background: true },
            Phase::Captures { class: 0, count: 30, window_ms: 700, background: true },
        ],
        Mode::CollectFriction => vec![
            Phase::Captures { class: 0, count: 30, window_ms: 800, background: true },
        ],
        _ => Vec::new(),
    }
}

/// Whether an existing samples file must not be appended to: it has a
/// first line and that line is not the current header.
pub fn header_mismatch(first_line: Option<&str>) -> (r: bool)
    ensures
        r == (first_line matches Some(h) && h@ != CSV_HEADER@),
{
    match first_line {
        Some(h) => !chars_eq_str(&chars_of(h), CSV_HEADER),
        None => false,
    }
}

/// The index of the loudest chunk, the last one among equally loud chunks.
pub open spec fn loudest_index(peaks: Seq<u32>) -> Option<int>
    decreases peaks.len(),
{
    if peaks.len() == 0 {
        None
    } else {
        let b = loudest_index(peaks.drop_last());
        if b is None || peaks.last() >= peaks[b->0] { Some(peaks.len() - 1) } else { b }
    }
}

/// The label of chunk `i` of a capture window of class `class` whose
/// loudest chunk is `p`: the loudest chunk, and a neighbour still loud
/// enough to be part of the same impact, get the class; the rest are
/// background.
pub open spec fn capture_label(peaks: Seq<u32>, p: int, class: u8, i: int) -> u8 {
    if i == p {
        class
    } else if (i - p == 1 || p - i == 1) && peaks[i] >= CAPTURE_NEIGHBOR_MIN_PEAK {
        class
    } else {
        0
    }
}

/// Labels a finished capture window's chunks by their peaks (see
/// `capture_label`); an empty window gives no rows.
pub fn capture_labels(peaks: &Vec<u32>, class: u8) -> (labels: Vec<u8>)
    ensures
        labels@.len() == peaks@.len(),
        forall|i: int| 0 <= i < peaks@.len() ==> #[trigger] labels@[i]
            == capture_label(peaks@, loudest_index(peaks@)->0, class, i),
{
    let n = peaks.len();
    let mut labels: Vec<u8> = Vec::new();
    if n == 0 {
        return labels;
    }
    let mut best: usize = 0;
    let mut i: usize = 1;
    assert(peaks@.take(1).drop_last() =~= Seq::<u32>::empty());
    assert(loudest_index(Seq::<u32>::empty()) is None);
    assert(loudest_index(peaks@.take(1)) == Some(0int));
    while i < n
        invariant
            n == peaks@.len(),
            1 <= i <= n,
            best < i,
            loudest_index(peaks@.take(i as int)) == Some(best as int),
        decreases n - i,
    {
        proof {
            let t = peaks@.take(i + 1);
            assert(t.drop_last() =~= peaks@.take(i as int));
            assert(t[best as int] == peaks@[best as int]);
        }
        if peaks[i] >= peaks[best] {
            best = i;
        }
        i += 1;
    }
    assert(peaks@.take(n as int) =~= peaks@);
    let mut j: usize = 0;
    while j < n
        invariant
            n == peaks@.len(),
            best < n,
            loudest_index(peaks@) == Some(best as int),
            j <= n,
            labels@.len() == j,
            forall|k: int| 0 <= k < j ==> #[trigger] labels@[k] == capture_label(peaks@, best as int, class, k),
        decreases n - j,
    {
        let near = (j + 1 == best || best + 1 == j) && peaks[j] >= CAPTURE_NEIGHBOR_MIN_PEAK;
        let l = if j == best { class } else if near { class } else { 0 };
        labels.push(l);
        j += 1;
    }
    labels
}

/// What a collection does with the existing samples file.
#[derive(PartialEq, Eq, Structural, Clone, Copy)]
pub enum OldFileAction {
    /// No file, or its header is current: append to it.
    Append,
    /// The full collection backs an old-format file up and starts afresh.
    BackUpAndStartOver,
    /// The add-on collections stop rather than append to an old format.
    Abort,
}

/// The action for a collection in mode `m` given the existing file's first
/// line (`None` when there is no file or it is empty).
pub fn old_file_action(m: Mode, first_line: Option<&str>) -> (a: OldFileAction)
    ensures
        !(first_line matches Some(h) && h@ != CSV_HEADER@) ==> a == OldFileAction::Append,
        (first_line matches Some(h) && h@ != CSV_HEADER@) ==> a == (if m == Mode::Collect {
            OldFileAction::BackUpAndStartOver
        } else {
            OldFileAction::Abort
        }),
{
    if !header_mismatch(first_line) {
        OldFileAction::Append
    } else if m == Mode::Collect {
        OldFileAction::BackUpAndStartOver
    } else {
        OldFileAction::Abort
    }
}

} // verus!
