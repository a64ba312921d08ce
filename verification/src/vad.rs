use vstd::prelude::*;

use crate::audio::WAV_SAMPLE_RATE;

verus! {

/// Samples the voice activity model looks at in one step.
pub const WINDOW_SIZE_SAMPLES: usize = 512;

/// Shortest speech, in milliseconds, that is kept as a speech segment (it must be longer).
pub const MIN_SPEECH_DURATION_MS: usize = 1500;

/// Silence, in milliseconds, that ends a speech segment.
pub const MIN_SILENCE_DURATION_MS: usize = 500;

/// Shortest kept speech, in samples.
pub open spec fn min_speech_samples() -> int {
    WAV_SAMPLE_RATE * MIN_SPEECH_DURATION_MS / 1000
}

/// Silence, in samples, that ends a speech segment.
pub open spec fn min_silence_samples() -> int {
    WAV_SAMPLE_RATE * MIN_SILENCE_DURATION_MS / 1000
}

/// How a window of audio was judged by the voice activity model: `Speech` when its speech
/// probability is at least 0.5, `Silence` when it is below 0.35, `Neutral` in between.
#[derive(Clone, Copy, Debug, PartialEq, Eq, Structural)]
pub enum WindowLevel {
    Speech,
    Neutral,
    Silence,
}

/// A stretch of speech, as sample offsets `start..end`.
#[derive(Clone, Copy, Debug, PartialEq, Eq, Structural)]
pub struct SpeechTimestamp {
    pub start: usize,
    pub end: usize,
}

/// The state of the speech scan: whether speech is under way, where it began, where the
/// current silence began (0 for none), and the segments found so far.
pub type ScanState = (bool, int, int, Seq<SpeechTimestamp>);

/// One step of the speech scan over window `index` judged `level`.
pub open spec fn scan_step(st: ScanState, index: int, level: WindowLevel) -> ScanState {
    let (triggered, start, temp_end, speeches) = st;
    let here = WINDOW_SIZE_SAMPLES * index;
    let temp_end = if level == WindowLevel::Speech && temp_end != 0 {
        0
    } else {
        temp_end
    };
    if level == WindowLevel::Speech && !triggered {
        (true, here, temp_end, speeches)
    } else if level == WindowLevel::Silence && triggered {
        let silence_start = if temp_end == 0 {
            here
        } else {
            temp_end
        };
        if here - silence_start < min_silence_samples() {
            (true, start, silence_start, speeches)
        } else {
            let kept = if silence_start - start > min_speech_samples() {
                speeches.push(SpeechTimestamp { start: start as usize, end: silence_start as usize })
            } else {
                speeches
            };
            (false, start, 0, kept)
        }
    } else {
        (triggered, start, temp_end, speeches)
    }
}

/// The scan state after the first `n` windows.
pub open spec fn scan_windows(levels: Seq<WindowLevel>, n: nat) -> ScanState
    decreases n,
{
    if n == 0 {
        (false, 0, 0, Seq::empty())
    } else {
        scan_step(scan_windows(levels, (n - 1) as nat), n - 1, levels[n - 1])
    }
}

/// The speech segments found in audio of `num_samples` samples whose windows were judged
/// `levels`: speech that is still under way at the end runs to the end of the audio.
pub open spec fn speech_segments(levels: Seq<WindowLevel>, num_samples: int) -> Seq<SpeechTimestamp> {
    let (triggered, start, _temp_end, speeches) = scan_windows(levels, levels.len());
    if triggered && num_samples - start > min_speech_samples() {
        speeches.push(SpeechTimestamp { start: start as usize, end: num_samples as usize })
    } else {
        speeches
    }
}

/// The segments are in order, do not overlap, each lasts longer than the shortest kept
/// speech, and all lie within the audio.
pub open spec fn well_placed_segments(s: Seq<SpeechTimestamp>, num_samples: int) -> bool {
    &&& forall|i: int| 0 <= i < s.len() ==> #[trigger] s[i].end - s[i].start > min_speech_samples()
    &&& forall|i: int| 0 <= i < s.len() ==> #[trigger] s[i].end <= num_samples
    &&& forall|i: int, j: int| 0 <= i < j < s.len() ==> #[trigger] s[i].end <= #[trigger] s[j].start
}

/// There is one window per `WINDOW_SIZE_SAMPLES` samples, the last one possibly partial.
pub open spec fn windows_cover(num_windows: int, num_samples: int) -> bool {
    &&& num_samples <= num_windows * WINDOW_SIZE_SAMPLES
    &&& num_windows * WINDOW_SIZE_SAMPLES < num_samples + WINDOW_SIZE_SAMPLES
}

/// Finds the speech segments in audio of `num_samples` samples from the judgement of each
/// of its windows.
pub fn speech_timestamps(levels: &[WindowLevel], num_samples: usize) -> (r: Vec<SpeechTimestamp>)
    requires
        windows_cover(levels@.len() as int, num_samples as int),
    ensures
        r@ == speech_segments(levels@, num_samples as int),
        well_placed_segments(r@, num_samples as int),
{
    let min_speech = WAV_SAMPLE_RATE as usize * MIN_SPEECH_DURATION_MS / 1000;
    let min_silence = WAV_SAMPLE_RATE as usize * MIN_SILENCE_DURATION_MS / 1000;
    let mut triggered = false;
    let mut start: usize = 0;
    let mut temp_end: usize = 0;
    let mut speeches: Vec<SpeechTimestamp> = Vec::new();
    let mut index: usize = 0;
    while index < levels.len()
        invariant
            windows_cover(levels@.len() as int, num_samples as int),
            index <= levels@.len(),
            min_speech == min_speech_samples(),
            min_silence == min_silence_samples(),
            scan_windows(levels@, index as nat) == (
                triggered,
                start as int,
                temp_end as int,
                speeches@,
            ),
            triggered ==> start < WINDOW_SIZE_SAMPLES * index,
            triggered && temp_end != 0 ==> start < temp_end < WINDOW_SIZE_SAMPLES * index,
            !triggered ==> temp_end == 0,
            well_placed_segments(speeches@, num_samples as int),
            forall|i: int| 0 <= i < speeches@.len() ==> #[trigger] speeches@[i].end
                <= WINDOW_SIZE_SAMPLES * index,
            triggered ==> forall|i: int| 0 <= i < speeches@.len() ==> #[trigger] speeches@[i].end
                <= start,
        decreases levels@.len() - index,
    {
        let level = levels[index];
        let here = WINDOW_SIZE_SAMPLES * index;
        assert(here < num_samples) by (nonlinear_arith)
            requires
                here == WINDOW_SIZE_SAMPLES * index,
                index < levels@.len(),
                levels@.len() * WINDOW_SIZE_SAMPLES < num_samples + WINDOW_SIZE_SAMPLES,
        ;
        let ghost before = speeches@;
        if level == WindowLevel::Speech && temp_end != 0 {
            temp_end = 0;
        }
        if level == WindowLevel::Speech && !triggered {
            triggered = true;
            start = here;
        } else if level == WindowLevel::Silence && triggered {
            if temp_end == 0 {
                temp_end = here;
            }
            if here - temp_end >= min_silence {
                if temp_end - start > min_speech {
                    speeches.push(SpeechTimestamp { start, end: temp_end });
                }
                temp_end = 0;
                triggered = false;
            }
        }
        index = index + 1;
    }
    if triggered && num_samples > start && num_samples - start > min_speech {
        speeches.push(SpeechTimestamp { start, end: num_samples });
    }
    speeches
}

/// The windows end in a pause long enough to close any speech: there are none, or the last
/// 17 are judged silence (17 windows of 512 samples span more than the 8000 samples of
/// silence that end speech).
pub open spec fn ends_in_pause(levels: Seq<WindowLevel>) -> bool {
    ||| levels.len() == 0
    ||| (levels.len() >= 17 && forall|i: int|
        levels.len() - 17 <= i < levels.len() ==> #[trigger] levels[i] == WindowLevel::Silence)
}

/// A sentence followed by a pause: `speech` windows judged speech, then `pause` windows
/// judged silence.
pub open spec fn sentence_then_pause(speech: nat, pause: nat) -> Seq<WindowLevel> {
    Seq::new(speech, |i: int| WindowLevel::Speech) + Seq::new(pause, |i: int| WindowLevel::Silence)
}

/// The scan of the first `n` windows looks at no window after them.
proof fn lemma_scan_prefix(levels: Seq<WindowLevel>, more: Seq<WindowLevel>, n: nat)
    requires
        n <= levels.len(),
    ensures
        scan_windows(levels + more, n) == scan_windows(levels, n),
    decreases n,
{
    if n > 0 {
        lemma_scan_prefix(levels, more, (n - 1) as nat);
        assert((levels + more)[n - 1] == levels[n - 1]);
    }
}

/// What holds of every scan state: no silence is pending unless speech is under way, and a
/// pending silence began at a window already scanned.
proof fn lemma_scan_state(levels: Seq<WindowLevel>, n: nat)
    requires
        n <= levels.len(),
    ensures
        !scan_windows(levels, n).0 ==> scan_windows(levels, n).2 == 0,
        0 <= scan_windows(levels, n).2 <= WINDOW_SIZE_SAMPLES * n,
        scan_windows(levels, n).0 ==> 0 <= scan_windows(levels, n).1 < WINDOW_SIZE_SAMPLES * n,
    decreases n,
{
    if n > 0 {
        lemma_scan_state(levels, (n - 1) as nat);
    }
}

/// Within a run of silent windows that begins at window `w`, speech still under way has a
/// pending silence that began no later than window `w`, and not yet long enough to end it.
proof fn lemma_silence_run(levels: Seq<WindowLevel>, w: nat, m: nat)
    requires
        w < m <= levels.len(),
        forall|i: int| w <= i < m ==> #[trigger] levels[i] == WindowLevel::Silence,
    ensures
        scan_windows(levels, m).0 ==> {
            &&& scan_windows(levels, m).2 != 0
            &&& scan_windows(levels, m).2 <= WINDOW_SIZE_SAMPLES * w
            &&& WINDOW_SIZE_SAMPLES * (m - 1) - scan_windows(levels, m).2 < min_silence_samples()
        },
    decreases m,
{
    lemma_scan_state(levels, (m - 1) as nat);
    assert(levels[m - 1] == WindowLevel::Silence);
    if m > w + 1 {
        lemma_silence_run(levels, w, (m - 1) as nat);
    }
}

/// Windows that end in a pause leave no speech under way and no silence pending.
proof fn lemma_pause_closes(levels: Seq<WindowLevel>)
    requires
        ends_in_pause(levels),
    ensures
        !scan_windows(levels, levels.len()).0,
        scan_windows(levels, levels.len()).2 == 0,
{
    let n = levels.len();
    if n > 0 {
        let w = (n - 17) as nat;
        lemma_silence_run(levels, w, w + 17);
        lemma_scan_state(levels, n);
    }
}

/// The scan through the speech windows of an appended sentence that starts at window `l`.
proof fn lemma_scan_sentence(all: Seq<WindowLevel>, l: nat, m: nat, sp: Seq<SpeechTimestamp>)
    requires
        l < m <= all.len(),
        forall|i: int| l <= i < m ==> #[trigger] all[i] == WindowLevel::Speech,
        !scan_windows(all, l).0,
        scan_windows(all, l).2 == 0,
        scan_windows(all, l).3 == sp,
    ensures
        scan_windows(all, m) == (true, WINDOW_SIZE_SAMPLES * l, 0int, sp),
    decreases m,
{
    assert(all[m - 1] == WindowLevel::Speech);
    if m > l + 1 {
        lemma_scan_sentence(all, l, (m - 1) as nat, sp);
    }
}

/// The scan through the silent windows after a sentence that ran from window `l` to window
/// `e`: the pause is pending for 16 windows, then the sentence is kept as a segment.
proof fn lemma_scan_pause(all: Seq<WindowLevel>, l: nat, e: nat, m: nat, sp: Seq<SpeechTimestamp>)
    requires
        l < e < m <= all.len(),
        e - l >= 47,
        forall|i: int| e <= i < m ==> #[trigger] all[i] == WindowLevel::Silence,
        scan_windows(all, e) == (true, WINDOW_SIZE_SAMPLES * l, 0int, sp),
    ensures
        m <= e + 16 ==> scan_windows(all, m) == (
            true,
            WINDOW_SIZE_SAMPLES * l,
            WINDOW_SIZE_SAMPLES * e,
            sp,
        ),
        m > e + 16 ==> scan_windows(all, m) == (
            false,
            WINDOW_SIZE_SAMPLES * l,
            0int,
            sp.push(
                SpeechTimestamp {
                    start: (WINDOW_SIZE_SAMPLES * l) as usize,
                    end: (WINDOW_SIZE_SAMPLES * e) as usize,
                },
            ),
        ),
    decreases m,
{
    assert(all[m - 1] == WindowLevel::Silence);
    if m > e + 1 {
        lemma_scan_pause(all, l, e, (m - 1) as nat, sp);
    }
}

/// The scan finds every sentence: after windows that end in a pause, one more sentence of
/// at least 47 speech windows (longer than the 24000 samples of the shortest kept speech)
/// followed by a pause of at least 17 silent windows adds exactly one segment, that
/// sentence, to the segments found before, whatever they were.
pub proof fn lemma_speech_segments_append_sentence(
    levels: Seq<WindowLevel>,
    speech: nat,
    pause: nat,
    num_before: int,
    num_after: int,
)
    requires
        ends_in_pause(levels),
        speech >= 47,
        pause >= 17,
    ensures
        speech_segments(levels + sentence_then_pause(speech, pause), num_after) == speech_segments(
            levels,
            num_before,
        ).push(
            SpeechTimestamp {
                start: (WINDOW_SIZE_SAMPLES * levels.len()) as usize,
                end: (WINDOW_SIZE_SAMPLES * (levels.len() + speech)) as usize,
            },
        ),
{
    let l = levels.len();
    let more = sentence_then_pause(speech, pause);
    let all = levels + more;
    let e = l + speech;
    lemma_pause_closes(levels);
    lemma_scan_prefix(levels, more, l);
    let sp = scan_windows(levels, l).3;
    assert forall|i: int| l <= i < e implies #[trigger] all[i] == WindowLevel::Speech by {
        assert(all[i] == more[i - l]);
    }
    assert forall|i: int| e <= i < all.len() implies #[trigger] all[i] == WindowLevel::Silence by {
        assert(all[i] == more[i - l]);
    }
    lemma_scan_sentence(all, l, e, sp);
    lemma_scan_pause(all, l, e, all.len(), sp);
}

/// Speech still under way when the audio ends is kept too: after windows that end in a
/// pause, a last sentence of speech windows that runs to the end of audio of `num_after`
/// samples, longer than the shortest kept speech, adds exactly one segment, from the
/// sentence's start to the end of the audio.
pub proof fn lemma_speech_segments_append_final_sentence(
    levels: Seq<WindowLevel>,
    speech: nat,
    num_before: int,
    num_after: int,
)
    requires
        ends_in_pause(levels),
        speech >= 1,
        num_after - WINDOW_SIZE_SAMPLES * levels.len() > min_speech_samples(),
    ensures
        speech_segments(levels + sentence_then_pause(speech, 0), num_after) == speech_segments(
            levels,
            num_before,
        ).push(
            SpeechTimestamp {
                start: (WINDOW_SIZE_SAMPLES * levels.len()) as usize,
                end: num_after as usize,
            },
        ),
{
    let l = levels.len();
    let more = sentence_then_pause(speech, 0);
    let all = levels + more;
    lemma_pause_closes(levels);
    lemma_scan_prefix(levels, more, l);
    let sp = scan_windows(levels, l).3;
    assert forall|i: int| l <= i < all.len() implies #[trigger] all[i] == WindowLevel::Speech by {
        assert(all[i] == more[i - l]);
    }
    lemma_scan_sentence(all, l, all.len(), sp);
}


/// A chunk of the audio to transcribe on its own, as sample offsets
/// `start_sample..end_sample`.
#[derive(Clone, Copy, Debug, PartialEq, Eq, Structural)]
pub struct ChunkRange {
    pub start_sample: usize,
    pub end_sample: usize,
}

/// Every element of `s` is smaller than the ones after it.
pub open spec fn strictly_increasing(s: Seq<usize>) -> bool {
    forall|i: int, j: int| 0 <= i < j < s.len() ==> #[trigger] s[i] < #[trigger] s[j]
}

pub open spec fn distance(a: int, b: int) -> int {
    if a >= b {
        a - b
    } else {
        b - a
    }
}

/// The first of `points` nearest to `target`.
pub open spec fn nearest_point(points: Seq<usize>, target: int) -> usize
    decreases points.len(),
{
    if points.len() <= 1 {
        points[0]
    } else {
        let c = nearest_point(points.drop_last(), target);
        if distance(points.last() as int, target) < distance(c as int, target) {
            points.last()
        } else {
            c
        }
    }
}

/// The places where the audio may be cut: its two ends and the start of every speech
/// segment.
pub open spec fn candidate_points(speech: Seq<SpeechTimestamp>, num_samples: int) -> Set<usize> {
    Set::new(
        |p: usize|
            p == 0 || p == num_samples || exists|i: int|
                0 <= i < speech.len() && #[trigger] speech[i].start == p,
    )
}

/// The candidate points nearest to the targets `step`, `2 * step`, ..., `k * step` that lie
/// before the end of the audio.
pub open spec fn nearest_splits(points: Seq<usize>, step: int, num_samples: int, k: nat) -> Set<
    usize,
>
    decreases k,
{
    if k == 0 {
        Set::empty()
    } else {
        let prev = nearest_splits(points, step, num_samples, (k - 1) as nat);
        if k * step < num_samples {
            prev.insert(nearest_point(points, k * step))
        } else {
            prev
        }
    }
}

/// Where the audio is cut before long pieces are divided further: both ends, and for
/// every multiple of `step` inside the audio the candidate point nearest to it.
pub open spec fn split_points(points: Seq<usize>, step: int, num_samples: int) -> Set<usize> {
    set![0usize, num_samples as usize].union(
        nearest_splits(points, step, num_samples, num_samples as nat),
    )
}

/// `a / b` rounded to the nearest integer, halves upward (for `a >= 0`, `b > 0`).
pub open spec fn rounded_div(a: int, b: int) -> int {
    (2 * a + b) / (2 * b)
}

/// `a / b` rounded upward (for `a >= 0`, `b > 0`).
pub open spec fn ceil_div(a: int, b: int) -> int {
    (a + b - 1) / b
}

/// The cut points after `start` that divide the piece `start..end`: just `end` when the
/// piece is at most `max` samples long, otherwise the points that split it into the
/// fewest pieces of at most `max` samples, spread evenly.
pub open spec fn sub_splits(start: usize, end: usize, max: int) -> Seq<usize> {
    let len = end - start;
    if len <= max {
        seq![end]
    } else {
        let n = ceil_div(len, max);
        Seq::new((n - 1) as nat, |i: int| even_split_point(start, end, n, i + 1)).push(end)
    }
}

/// The `i`-th of the points that split `start..end` into `n` nearly equal pieces.
pub open spec fn even_split_point(start: usize, end: usize, n: int, i: int) -> usize {
    let p = start + rounded_div(i * (end - start), n);
    if p < end {
        p as usize
    } else {
        end
    }
}

/// 0 followed by the cut points of the first `w` pieces between consecutive split points.
pub open spec fn refined_prefix(splits: Seq<usize>, max: int, w: nat) -> Seq<usize>
    decreases w,
{
    if w == 0 {
        seq![0usize]
    } else {
        refined_prefix(splits, max, (w - 1) as nat) + sub_splits(splits[w - 1], splits[w as int], max)
    }
}

/// The ranges between consecutive points among the first `w + 1`, leaving out empty ones
/// and ones that reach past the audio.
pub open spec fn ranges_prefix(points: Seq<usize>, num_samples: int, w: nat) -> Seq<ChunkRange>
    decreases w,
{
    if w == 0 {
        Seq::empty()
    } else {
        let s = points[w - 1];
        let e = points[w as int];
        ranges_prefix(points, num_samples, (w - 1) as nat) + if e <= s || e > num_samples {
            Seq::empty()
        } else {
            seq![ChunkRange { start_sample: s, end_sample: e }]
        }
    }
}

/// The chunks cut at the given sorted split points, long pieces divided to at most `max`
/// samples.
pub open spec fn chunks_from_splits(splits: Seq<usize>, max: int, num_samples: int) -> Seq<
    ChunkRange,
> {
    let refined = refined_prefix(splits, max, (splits.len() - 1) as nat);
    ranges_prefix(refined, num_samples, (refined.len() - 1) as nat)
}

/// A set has only one strictly increasing listing: two strictly increasing sequences with
/// the same elements are equal. So the chunks that `speech_chunk_ranges` promises are
/// determined by the speech segments and the two thresholds.
pub proof fn lemma_sorted_listing_unique(a: Seq<usize>, b: Seq<usize>)
    requires
        strictly_increasing(a),
        strictly_increasing(b),
        a.to_set() == b.to_set(),
    ensures
        a == b,
    decreases a.len(),
{
    if a.len() == 0 {
        if b.len() > 0 {
            assert(b.to_set().contains(b[0]));
        }
        assert(a =~= b);
        return;
    }
    if b.len() == 0 {
        assert(a.to_set().contains(a[0]));
        return;
    }
    // Both start with the least element of the set.
    assert(a.to_set().contains(a[0]) && b.to_set().contains(b[0]));
    let i = choose|i: int| 0 <= i < b.len() && b[i] == a[0];
    let j = choose|j: int| 0 <= j < a.len() && a[j] == b[0];
    if i > 0 {
        assert(b[0] < b[i]);
        if j > 0 {
            assert(a[0] < a[j]);
        }
    }
    if j > 0 {
        assert(a[0] < a[j]);
    }
    assert(a[0] == b[0]);
    let a1 = a.drop_first();
    let b1 = b.drop_first();
    assert forall|x: usize| a1.to_set().contains(x) <==> b1.to_set().contains(x) by {
        if a1.to_set().contains(x) {
            let k = choose|k: int| 0 <= k < a1.len() && a1[k] == x;
            assert(a[k + 1] == x && a[0] < a[k + 1]);
            assert(a.to_set().contains(x));
            let m = choose|m: int| 0 <= m < b.len() && b[m] == x;
            assert(m != 0);
            assert(b1[m - 1] == x);
        }
        if b1.to_set().contains(x) {
            let k = choose|k: int| 0 <= k < b1.len() && b1[k] == x;
            assert(b[k + 1] == x && b[0] < b[k + 1]);
            assert(b.to_set().contains(x));
            let m = choose|m: int| 0 <= m < a.len() && a[m] == x;
            assert(m != 0);
            assert(a1[m - 1] == x);
        }
    }
    assert(a1.to_set() =~= b1.to_set());
    lemma_sorted_listing_unique(a1, b1);
    assert(a =~= seq![a[0]] + a1);
    assert(b =~= seq![b[0]] + b1);
}

/// Inserts `x` into a strictly increasing vector, unless it is there already.
fn insert_sorted(v: &mut Vec<usize>, x: usize)
    requires
        strictly_increasing(old(v)@),
    ensures
        strictly_increasing(final(v)@),
        final(v)@.to_set() == old(v)@.to_set().insert(x),
{
    let mut i: usize = 0;
    while i < v.len() && v[i] < x
        invariant
            i <= v@.len(),
            forall|j: int| 0 <= j < i ==> v@[j] < x,
        decreases v@.len() - i,
    {
        i = i + 1;
    }
    if i < v.len() && v[i] == x {
        assert(v@.to_set().insert(x) =~= v@.to_set()) by {
            assert(v@.to_set().contains(x)) by {
                assert(v@[i as int] == x);
            }
        }
        return;
    }
    let ghost old_v = v@;
    v.insert(i, x);
    assert(v@.to_set() =~= old_v.to_set().insert(x)) by {
        assert forall|y: usize| v@.to_set().contains(y) implies old_v.to_set().insert(x).contains(
            y,
        ) by {
            let k = choose|k: int| 0 <= k < v@.len() && v@[k] == y;
            if k < i {
                assert(old_v[k] == y);
            } else if k > i {
                assert(old_v[k - 1] == y);
            }
        }
        assert forall|y: usize| old_v.to_set().insert(x).contains(y) implies v@.to_set().contains(
            y,
        ) by {
            if y == x {
                assert(v@[i as int] == x);
            } else {
                let k = choose|k: int| 0 <= k < old_v.len() && old_v[k] == y;
                if k < i {
                    assert(v@[k] == y);
                } else {
                    assert(v@[k + 1] == y);
                }
            }
        }
    }
    assert forall|a: int, b: int| 0 <= a < b < v@.len() implies #[trigger] v@[a] < #[trigger] v@[b] by {
        if b < i {
            assert(v@[a] == old_v[a] && v@[b] == old_v[b]);
        } else if b == i {
            assert(v@[a] == old_v[a]);
        } else if a < i {
            assert(v@[a] == old_v[a] && v@[b] == old_v[b - 1]);
        } else if a == i {
            assert(v@[b] == old_v[b - 1]);
        } else {
            assert(v@[a] == old_v[a - 1] && v@[b] == old_v[b - 1]);
        }
    }
}

/// The first of `points` nearest to `target`.
fn nearest(points: &Vec<usize>, target: usize) -> (r: usize)
    requires
        points@.len() >= 1,
    ensures
        r == nearest_point(points@, target as int),
{
    let mut best = points[0];
    let mut i: usize = 1;
    assert(points@.take(1).drop_last() =~= Seq::<usize>::empty());
    while i < points.len()
        invariant
            1 <= i <= points@.len(),
            best == nearest_point(points@.take(i as int), target as int),
        decreases points@.len() - i,
    {
        let p = points[i];
        let dp = if p >= target {
            p - target
        } else {
            target - p
        };
        let db = if best >= target {
            best - target
        } else {
            target - best
        };
        assert(points@.take(i + 1).drop_last() =~= points@.take(i as int));
        if dp < db {
            best = p;
        }
        i = i + 1;
    }
    assert(points@.take(points@.len() as int) =~= points@);
    best
}

/// The candidate cut points: both ends of the audio and every speech start, sorted.
fn candidate_split_points(speech: &[SpeechTimestamp], num_samples: usize) -> (r: Vec<usize>)
    ensures
        strictly_increasing(r@),
        r@.to_set() == candidate_points(speech@, num_samples as int),
        r@.len() >= 1,
{
    let mut points: Vec<usize> = Vec::new();
    points.push(0);
    assert(points@.to_set() =~= set![0usize]) by {
        assert(points@[0] == 0);
    }
    insert_sorted(&mut points, num_samples);
    let mut i: usize = 0;
    assert(points@.to_set() =~= Set::new(
        |p: usize|
            p == 0 || p == num_samples || exists|j: int|
                0 <= j < i && #[trigger] speech@[j].start == p,
    ));
    while i < speech.len()
        invariant
            i <= speech@.len(),
            strictly_increasing(points@),
            points@.to_set() == Set::new(
                |p: usize|
                    p == 0 || p == num_samples || exists|j: int|
                        0 <= j < i && #[trigger] speech@[j].start == p,
            ),
        decreases speech@.len() - i,
    {
        insert_sorted(&mut points, speech[i].start);
        i = i + 1;
        assert(points@.to_set() =~= Set::new(
            |p: usize|
                p == 0 || p == num_samples || exists|j: int|
                    0 <= j < i && #[trigger] speech@[j].start == p,
        ));
    }
    assert(points@.to_set() =~= candidate_points(speech@, num_samples as int));
    assert(points@.to_set().contains(0usize));
    points
}


proof fn lemma_nearest_in(points: Seq<usize>, target: int)
    requires
        points.len() >= 1,
    ensures
        points.contains(nearest_point(points, target)),
    decreases points.len(),
{
    if points.len() > 1 {
        lemma_nearest_in(points.drop_last(), target);
        let c = nearest_point(points.drop_last(), target);
        let j = choose|j: int| 0 <= j < points.drop_last().len() && points.drop_last()[j] == c;
        assert(points[j] == c);
        assert(points[points.len() - 1] == points.last());
    } else {
        assert(points[0] == points[0]);
    }
}

/// Past the last target inside the audio, no further targets add split points.
proof fn lemma_nearest_splits_stable(points: Seq<usize>, step: int, num_samples: int, k: nat, j: nat)
    requires
        step >= 1,
        k <= j,
        (k + 1) * step >= num_samples,
    ensures
        nearest_splits(points, step, num_samples, j) == nearest_splits(points, step, num_samples, k),
    decreases j,
{
    if j > k {
        lemma_nearest_splits_stable(points, step, num_samples, k, (j - 1) as nat);
        assert(j * step >= (k + 1) * step) by (nonlinear_arith)
            requires
                j >= k + 1,
                step >= 1,
        ;
    }
}

/// The split points for targets every `step` samples, sorted.
fn split_points_sorted(points: &Vec<usize>, step: usize, num_samples: usize) -> (r: Vec<usize>)
    requires
        step >= 1,
        points@.len() >= 1,
    ensures
        strictly_increasing(r@),
        r@.to_set() == split_points(points@, step as int, num_samples as int),
        r@.len() >= 1,
{
    let mut splits: Vec<usize> = Vec::new();
    splits.push(0);
    assert(splits@.to_set() =~= set![0usize]) by {
        assert(splits@[0] == 0);
    }
    insert_sorted(&mut splits, num_samples);
    let ghost base = set![0usize, num_samples as usize];
    assert(splits@.to_set() =~= base);
    if step >= num_samples {
        proof {
            assert((0 + 1) * step == step) by (nonlinear_arith);
            lemma_nearest_splits_stable(points@, step as int, num_samples as int, 0, num_samples as nat);
        }
        assert(splits@.to_set() =~= split_points(points@, step as int, num_samples as int));
        assert(splits@.to_set().contains(0usize));
        return splits;
    }
    let mut target: usize = step;
    let ghost mut k: nat = 1;
    let mut more = true;
    while more
        invariant
            step >= 1,
            points@.len() >= 1,
            1 <= k,
            base == set![0usize, num_samples as usize],
            target == k * step,
            target < num_samples,
            !more ==> target + step >= num_samples,
            strictly_increasing(splits@),
            more ==> splits@.to_set() == base.union(
                nearest_splits(points@, step as int, num_samples as int, (k - 1) as nat),
            ),
            !more ==> splits@.to_set() == base.union(
                nearest_splits(points@, step as int, num_samples as int, k),
            ),
        decreases num_samples - target + (if more { 1int } else { 0 }),
    {
        let p = nearest(points, target);
        insert_sorted(&mut splits, p);
        assert(splits@.to_set() =~= base.union(
            nearest_splits(points@, step as int, num_samples as int, k),
        ));
        if step < num_samples - target {
            target = target + step;
            proof {
                k = k + 1;
                assert(target == k * step) by (nonlinear_arith)
                    requires
                        target == (k - 1) * step + step,
                ;
            }
        } else {
            more = false;
        }
    }
    proof {
        assert((k + 1) * step == k * step + step) by (nonlinear_arith);
        assert(k <= num_samples) by (nonlinear_arith)
            requires
                k * step < num_samples + 1,
                step >= 1,
                k >= 1,
        ;
        lemma_nearest_splits_stable(points@, step as int, num_samples as int, k, num_samples as nat);
        assert(splits@.to_set().contains(0usize));
    }
    splits
}

proof fn lemma_rounded(a: int, b: int, q: int, r: int)
    requires
        b > 0,
        0 <= r < b,
        a == b * q + r,
    ensures
        rounded_div(a, b) == q + if 2 * r >= b {
            1int
        } else {
            0
        },
{
    let x = 2 * a + b;
    if 2 * r >= b {
        assert(x == (2 * b) * (q + 1) + (2 * r - b)) by (nonlinear_arith)
            requires
                x == 2 * a + b,
                a == b * q + r,
        ;
        vstd::arithmetic::div_mod::lemma_fundamental_div_mod_converse(x, 2 * b, q + 1, 2 * r - b);
    } else {
        assert(x == (2 * b) * q + (2 * r + b)) by (nonlinear_arith)
            requires
                x == 2 * a + b,
                a == b * q + r,
        ;
        vstd::arithmetic::div_mod::lemma_fundamental_div_mod_converse(x, 2 * b, q, 2 * r + b);
    }
}

/// Rounding `i * len / n` for `i < n <= len` gives at most `len`.
proof fn lemma_rounded_le(i: int, len: int, n: int)
    requires
        0 <= i < n,
        n <= len,
    ensures
        0 <= rounded_div(i * len, n) <= len,
{
    let a = i * len;
    assert(0 <= a <= (n - 1) * len) by (nonlinear_arith)
        requires
            0 <= i < n,
            0 <= len,
            a == i * len,
    ;
    let nl = n * len;
    assert((n - 1) * len == nl - len) by (nonlinear_arith)
        requires
            nl == n * len,
    ;
    assert(2 * n * len == 2 * nl) by (nonlinear_arith)
        requires
            nl == n * len,
    ;
    assert(2 * a + n <= 2 * n * len);
    assert(2 * a + n >= 0);
    vstd::arithmetic::div_mod::lemma_div_is_ordered(2 * a + n, 2 * n * len, 2 * n);
    assert((2 * n * len) / (2 * n) == len) by {
        vstd::arithmetic::div_mod::lemma_div_multiples_vanish(len, 2 * n);
        assert(2 * n * len == (2 * n) * len) by (nonlinear_arith);
    }
    vstd::arithmetic::div_mod::lemma_div_pos_is_pos(2 * a + n, 2 * n);
}

proof fn lemma_ceil_div(len: int, max: int, q: int, r: int)
    requires
        max >= 1,
        len > max,
        0 <= r < max,
        len == max * q + r,
    ensures
        ceil_div(len, max) == q + if r != 0 {
            1int
        } else {
            0
        },
        2 <= ceil_div(len, max) <= len,
{
    if r != 0 {
        assert(len + max - 1 == max * (q + 1) + (r - 1)) by (nonlinear_arith)
            requires
                len == max * q + r,
        ;
        vstd::arithmetic::div_mod::lemma_fundamental_div_mod_converse(
            len + max - 1,
            max,
            q + 1,
            r - 1,
        );
    } else {
        assert(len + max - 1 == max * q + (max - 1)) by (nonlinear_arith)
            requires
                len == max * q + r,
                r == 0,
        ;
        vstd::arithmetic::div_mod::lemma_fundamental_div_mod_converse(
            len + max - 1,
            max,
            q,
            max - 1,
        );
    }
    assert(q >= 1) by (nonlinear_arith)
        requires
            len == max * q + r,
            len > max,
            r < max,
            max >= 1,
    ;
    assert(max * q >= q) by (nonlinear_arith)
        requires
            q >= 1,
            max >= 1,
    ;
    assert(r != 0 ==> q + 1 <= len);
    assert(q == 1 && r == 0 ==> false) by (nonlinear_arith)
        requires
            len == max * q + r,
            len > max,
    ;
}

/// Appends the cut points that divide `start..end` into pieces of at most `max` samples.
fn push_sub_splits(out: &mut Vec<usize>, start: usize, end: usize, max: usize)
    requires
        start < end,
        max >= 1,
    ensures
        final(out)@ == old(out)@ + sub_splits(start, end, max as int),
{
    let len = end - start;
    if len <= max {
        out.push(end);
        return;
    }
    let q = len / max;
    let rem = len % max;
    proof {
        vstd::arithmetic::div_mod::lemma_fundamental_div_mod(len as int, max as int);
        lemma_ceil_div(len as int, max as int, q as int, rem as int);
    }
    let n = if rem != 0 {
        q + 1
    } else {
        q
    };
    let ghost ni = n as int;
    let ghost before = out@;
    let ghost pieces = Seq::new((ni - 1) as nat, |i: int| even_split_point(start, end, ni, i + 1));
    let mut index: usize = 1;
    while index < n
        invariant
            1 <= index <= n,
            n == ni,
            2 <= ni <= len,
            len == end - start,
            start < end,
            pieces == Seq::new((ni - 1) as nat, |i: int| even_split_point(start, end, ni, i + 1)),
            out@ == before + pieces.take(index - 1),
        decreases n - index,
    {
        assert((index as int) * (len as int) <= u128::MAX) by (nonlinear_arith)
            requires
                index <= usize::MAX,
                len <= usize::MAX,
                usize::MAX <= u64::MAX,
        ;
        let product = (index as u128) * (len as u128);
        let pq = product / (n as u128);
        let pr = product % (n as u128);
        proof {
            vstd::arithmetic::div_mod::lemma_fundamental_div_mod(product as int, n as int);
            lemma_rounded(product as int, n as int, pq as int, pr as int);
            lemma_rounded_le(index as int, len as int, n as int);
        }
        let rounded = if 2 * pr >= n as u128 {
            pq + 1
        } else {
            pq
        };
        let offset = rounded as usize;
        let split_point = start + offset;
        let p = if split_point < end {
            split_point
        } else {
            end
        };
        assert(p == pieces[index - 1]);
        out.push(p);
        assert(pieces.take(index as int) =~= pieces.take(index - 1).push(pieces[index - 1]));
        index = index + 1;
    }
    out.push(end);
    assert(pieces.take(ni - 1) =~= pieces);
    assert(out@ =~= before + sub_splits(start, end, max as int));
}

/// The chunks between the sorted split points, long pieces divided to at most `max`
/// samples, pieces reaching past the audio left out.
fn chunks_between(splits: &Vec<usize>, max: usize, num_samples: usize) -> (r: Vec<ChunkRange>)
    requires
        strictly_increasing(splits@),
        splits@.len() >= 1,
        max >= 1,
    ensures
        r@ == chunks_from_splits(splits@, max as int, num_samples as int),
{
    let mut refined: Vec<usize> = Vec::new();
    refined.push(0);
    let mut w: usize = 1;
    while w < splits.len()
        invariant
            1 <= w <= splits@.len(),
            strictly_increasing(splits@),
            max >= 1,
            refined@ == refined_prefix(splits@, max as int, (w - 1) as nat),
        decreases splits@.len() - w,
    {
        push_sub_splits(&mut refined, splits[w - 1], splits[w], max);
        w = w + 1;
    }
    proof {
        lemma_refined_nonempty(splits@, max as int, (splits@.len() - 1) as nat);
    }
    let mut chunks: Vec<ChunkRange> = Vec::new();
    let mut v: usize = 1;
    while v < refined.len()
        invariant
            1 <= v <= refined@.len(),
            chunks@ == ranges_prefix(refined@, num_samples as int, (v - 1) as nat),
        decreases refined@.len() - v,
    {
        let s = refined[v - 1];
        let e = refined[v];
        if !(e <= s || e > num_samples) {
            chunks.push(ChunkRange { start_sample: s, end_sample: e });
        }
        assert(chunks@ =~= ranges_prefix(refined@, num_samples as int, v as nat));
        v = v + 1;
    }
    chunks
}

proof fn lemma_refined_nonempty(splits: Seq<usize>, max: int, w: nat)
    ensures
        refined_prefix(splits, max, w).len() >= 1,
    decreases w,
{
    if w > 0 {
        lemma_refined_nonempty(splits, max, (w - 1) as nat);
    }
}

/// With a limit at least `usize::MAX` no piece is divided, whatever the exact limit.
proof fn lemma_refined_saturated(splits: Seq<usize>, a: int, b: int, w: nat)
    requires
        a >= usize::MAX,
        b >= usize::MAX,
    ensures
        refined_prefix(splits, a, w) == refined_prefix(splits, b, w),
    decreases w,
{
    if w > 0 {
        lemma_refined_saturated(splits, a, b, (w - 1) as nat);
    }
}

/// `n * 16000` samples, or `usize::MAX` when that does not fit (no audio is that long).
fn seconds_to_samples(seconds: usize) -> (r: usize)
    ensures
        seconds * WAV_SAMPLE_RATE <= usize::MAX ==> r == seconds * WAV_SAMPLE_RATE,
        seconds * WAV_SAMPLE_RATE > usize::MAX ==> r == usize::MAX,
{
    if seconds <= usize::MAX / 16_000 {
        seconds * 16_000
    } else {
        usize::MAX
    }
}

/// Plans the chunks of audio of `num_samples` samples from its speech segments: cuts near
/// every `segment_threshold_s` seconds at the closest speech start (or end of audio), then
/// divides pieces longer than `max_segment_threshold_s` seconds evenly. Nothing when no
/// speech was found.
pub fn speech_chunk_ranges(
    num_samples: usize,
    speech: &[SpeechTimestamp],
    segment_threshold_s: usize,
    max_segment_threshold_s: usize,
) -> (r: Option<Vec<ChunkRange>>)
    requires
        segment_threshold_s >= 1,
        max_segment_threshold_s >= 1,
    ensures
        speech@.len() == 0 ==> r is None,
        speech@.len() > 0 ==> (r matches Some(chunks) && exists|points: Seq<usize>, splits: Seq<usize>|
            {
                &&& strictly_increasing(points)
                &&& points.to_set() == candidate_points(speech@, num_samples as int)
                &&& strictly_increasing(splits)
                &&& splits.to_set() == split_points(
                    points,
                    segment_threshold_s * WAV_SAMPLE_RATE,
                    num_samples as int,
                )
                &&& chunks@ == chunks_from_splits(
                    splits,
                    max_segment_threshold_s * WAV_SAMPLE_RATE,
                    num_samples as int,
                )
            }),
{
    if speech.len() == 0 {
        return None;
    }
    let points = candidate_split_points(speech, num_samples);
    let step = seconds_to_samples(segment_threshold_s);
    let splits = split_points_sorted(&points, step, num_samples);
    let ghost step_int = segment_threshold_s * WAV_SAMPLE_RATE;
    proof {
        if step_int > usize::MAX {
            assert((0 + 1) * step_int == step_int) by (nonlinear_arith);
            assert((0 + 1) * step == step) by (nonlinear_arith);
            lemma_nearest_splits_stable(points@, step_int, num_samples as int, 0, num_samples as nat);
            lemma_nearest_splits_stable(points@, step as int, num_samples as int, 0, num_samples as nat);
        }
        assert(splits@.to_set() == split_points(points@, step_int, num_samples as int));
    }
    let max = seconds_to_samples(max_segment_threshold_s);
    let chunks = chunks_between(&splits, max, num_samples);
    proof {
        let max_int = max_segment_threshold_s * WAV_SAMPLE_RATE;
        if max_int > usize::MAX {
            lemma_refined_saturated(splits@, max as int, max_int, (splits@.len() - 1) as nat);
        }
    }
    Some(chunks)
}


/// Consecutive chunks of at most `max` samples from the start of the audio, the last one
/// possibly shorter.
pub open spec fn fixed_chunks(num_samples: int, max: int) -> Seq<ChunkRange> {
    Seq::new(
        ceil_div(num_samples, max) as nat,
        |k: int|
            ChunkRange {
                start_sample: (k * max) as usize,
                end_sample: if (k + 1) * max < num_samples {
                    ((k + 1) * max) as usize
                } else {
                    num_samples as usize
                },
            },
    )
}

proof fn lemma_ceil_div_between(len: int, m: int, k: int)
    requires
        m >= 1,
        k >= 0,
        (k - 1) * m < len <= k * m,
    ensures
        ceil_div(len, m) == k,
{
    let x = len + m - 1;
    assert(x == m * k + (x - k * m) && 0 <= x - k * m < m) by (nonlinear_arith)
        requires
            x == len + m - 1,
            (k - 1) * m < len <= k * m,
    ;
    vstd::arithmetic::div_mod::lemma_fundamental_div_mod_converse(x, m, k, x - k * m);
}

/// Cuts audio of `num_samples` samples into consecutive chunks of
/// `max_segment_threshold_s` seconds, the last one possibly shorter; used when voice
/// activity detection finds nothing.
pub fn fallback_chunk_ranges(num_samples: usize, max_segment_threshold_s: usize) -> (r: Vec<
    ChunkRange,
>)
    requires
        max_segment_threshold_s >= 1,
    ensures
        r@ == fixed_chunks(num_samples as int, max_segment_threshold_s * WAV_SAMPLE_RATE),
        tiles_audio(r@, num_samples as int, max_segment_threshold_s * WAV_SAMPLE_RATE),
{
    proof {
        lemma_fixed_chunks_tile(num_samples as int, max_segment_threshold_s * WAV_SAMPLE_RATE);
    }
    let ghost m = max_segment_threshold_s * WAV_SAMPLE_RATE;
    let mut chunks: Vec<ChunkRange> = Vec::new();
    if max_segment_threshold_s > usize::MAX / 16_000 {
        if num_samples > 0 {
            chunks.push(ChunkRange { start_sample: 0, end_sample: num_samples });
            proof {
                lemma_ceil_div_between(num_samples as int, m, 1);
            }
            assert(chunks@ =~= fixed_chunks(num_samples as int, m));
        } else {
            proof {
                lemma_ceil_div_between(0, m, 0);
            }
            assert(chunks@ =~= fixed_chunks(num_samples as int, m));
        }
        return chunks;
    }
    let max = max_segment_threshold_s * 16_000;
    let ghost f = |k: int|
        ChunkRange {
            start_sample: (k * m) as usize,
            end_sample: if (k + 1) * m < num_samples {
                ((k + 1) * m) as usize
            } else {
                num_samples as usize
            },
        };
    let mut start: usize = 0;
    let ghost mut k: int = 0;
    while start < num_samples
        invariant
            max == m,
            m >= 1,
            k >= 0,
            start <= num_samples,
            start < num_samples ==> start == k * m,
            start == num_samples ==> (k - 1) * m < num_samples <= k * m,
            chunks@ == Seq::new(k as nat, f),
            f == (|k: int|
                ChunkRange {
                    start_sample: (k * m) as usize,
                    end_sample: if (k + 1) * m < num_samples {
                        ((k + 1) * m) as usize
                    } else {
                        num_samples as usize
                    },
                }),
        decreases num_samples - start,
    {
        let end = if max < num_samples - start {
            start + max
        } else {
            num_samples
        };
        assert((k + 1) * m == k * m + m) by (nonlinear_arith);
        chunks.push(ChunkRange { start_sample: start, end_sample: end });
        assert(chunks@ =~= Seq::new((k + 1) as nat, f));
        start = end;
        proof {
            k = k + 1;
        }
    }
    proof {
        if num_samples == 0 {
            lemma_ceil_div_between(0, m, 0);
        } else {
            lemma_ceil_div_between(num_samples as int, m, k);
        }
    }
    chunks
}

/// The chunks for audio of `num_samples` samples: planned from the speech segments, or
/// fixed-length chunks when there is no speech.
pub fn chunk_ranges(
    num_samples: usize,
    speech: &[SpeechTimestamp],
    segment_threshold_s: usize,
    max_segment_threshold_s: usize,
) -> (r: Vec<ChunkRange>)
    requires
        segment_threshold_s >= 1,
        max_segment_threshold_s >= 1,
    ensures
        speech@.len() == 0 ==> r@ == fixed_chunks(
            num_samples as int,
            max_segment_threshold_s * WAV_SAMPLE_RATE,
        ),
        speech@.len() > 0 ==> exists|points: Seq<usize>, splits: Seq<usize>|
            {
                &&& strictly_increasing(points)
                &&& points.to_set() == candidate_points(speech@, num_samples as int)
                &&& strictly_increasing(splits)
                &&& splits.to_set() == split_points(
                    points,
                    segment_threshold_s * WAV_SAMPLE_RATE,
                    num_samples as int,
                )
                &&& r@ == chunks_from_splits(
                    splits,
                    max_segment_threshold_s * WAV_SAMPLE_RATE,
                    num_samples as int,
                )
            },
        (forall|i: int| 0 <= i < speech@.len() ==> #[trigger] speech@[i].start <= num_samples)
            ==> tiles_audio(r@, num_samples as int, max_segment_threshold_s * WAV_SAMPLE_RATE),
{
    match speech_chunk_ranges(num_samples, speech, segment_threshold_s, max_segment_threshold_s) {
        Some(chunks) => {
            proof {
                if forall|i: int| 0 <= i < speech@.len() ==> #[trigger] speech@[i].start
                    <= num_samples {
                    let (points, splits) = choose|points: Seq<usize>, splits: Seq<usize>|
                        {
                            &&& strictly_increasing(points)
                            &&& points.to_set() == candidate_points(speech@, num_samples as int)
                            &&& strictly_increasing(splits)
                            &&& splits.to_set() == split_points(
                                points,
                                segment_threshold_s * WAV_SAMPLE_RATE,
                                num_samples as int,
                            )
                            &&& chunks@ == chunks_from_splits(
                                splits,
                                max_segment_threshold_s * WAV_SAMPLE_RATE,
                                num_samples as int,
                            )
                        };
                    lemma_planned_chunks_tile(
                        speech@,
                        num_samples,
                        segment_threshold_s * WAV_SAMPLE_RATE,
                        max_segment_threshold_s * WAV_SAMPLE_RATE,
                        points,
                        splits,
                    );
                }
            }
            chunks
        },
        None => fallback_chunk_ranges(num_samples, max_segment_threshold_s),
    }
}


/// The chunks cover the audio exactly, in order and without gaps or overlaps, and each
/// is non-empty and at most `max` samples long.
pub open spec fn tiles_audio(chunks: Seq<ChunkRange>, num_samples: int, max: int) -> bool {
    &&& (chunks.len() == 0 <==> num_samples == 0)
    &&& chunks.len() > 0 ==> chunks[0].start_sample == 0 && chunks.last().end_sample
        == num_samples
    &&& forall|i: int|
        0 <= i < chunks.len() ==> #[trigger] chunks[i].start_sample < chunks[i].end_sample
            && chunks[i].end_sample - chunks[i].start_sample <= max
    &&& forall|i: int|
        0 <= i < chunks.len() - 1 ==> #[trigger] chunks[i].end_sample == chunks[i
            + 1].start_sample
}

/// Consecutive points go up by at least one and at most `max`.
pub open spec fn step_ok(p: Seq<usize>, i: int, max: int) -> bool {
    p[i] < p[i + 1] && p[i + 1] - p[i] <= max
}

pub open spec fn steps_ok(p: Seq<usize>, max: int) -> bool {
    &&& p.len() >= 1
    &&& forall|i: int| 0 <= i < p.len() - 1 ==> #[trigger] step_ok(p, i, max)
}

proof fn lemma_ceil_bounds(len: int, m: int)
    requires
        m >= 1,
        len >= 1,
    ensures
        (ceil_div(len, m) - 1) * m < len <= ceil_div(len, m) * m,
        ceil_div(len, m) >= 1,
{
    let x = len + m - 1;
    let c = x / m;
    let r = x % m;
    vstd::arithmetic::div_mod::lemma_fundamental_div_mod(x, m);
    assert(c * m == x - r) by (nonlinear_arith)
        requires
            x == m * c + r,
    ;
    assert((c - 1) * m == c * m - m) by (nonlinear_arith);
    assert(c >= 1) by (nonlinear_arith)
        requires
            x == m * c + r,
            0 <= r < m,
            x >= m,
    ;
}

proof fn lemma_fixed_chunks_tile(num_samples: int, m: int)
    requires
        m >= 1,
        0 <= num_samples <= usize::MAX,
    ensures
        tiles_audio(fixed_chunks(num_samples, m), num_samples, m),
{
    let chunks = fixed_chunks(num_samples, m);
    let c = ceil_div(num_samples, m);
    if num_samples == 0 {
        lemma_ceil_div_between(0, m, 0);
        return;
    }
    lemma_ceil_bounds(num_samples, m);
    assert forall|i: int| 0 <= i < chunks.len() implies #[trigger] chunks[i].start_sample
        < chunks[i].end_sample && chunks[i].end_sample - chunks[i].start_sample <= m by {
        assert(i * m <= (c - 1) * m && i * m >= 0) by (nonlinear_arith)
            requires
                0 <= i <= c - 1,
                m >= 1,
        ;
        assert((i + 1) * m == i * m + m) by (nonlinear_arith);
    }
    assert forall|i: int| 0 <= i < chunks.len() - 1 implies #[trigger] chunks[i].end_sample
        == chunks[i + 1].start_sample by {
        assert((i + 1) * m <= (c - 1) * m && (i + 1) * m >= 0) by (nonlinear_arith)
            requires
                0 <= i + 1 <= c - 1,
                m >= 1,
        ;
    }
    assert(chunks.last().end_sample == num_samples) by {
        assert((c - 1 + 1) * m == c * m);
    }
    assert(chunks[0].start_sample == 0) by {
        assert(0 * m == 0);
    }
}

/// The points `rounded_div(i * len, n)` that split `len` samples into `n` pieces go up in
/// steps of at least one and at most `max` when `n` is the fewest pieces of at most `max`.
proof fn lemma_even_step(len: int, max: int, n: int, i: int)
    requires
        max >= 1,
        len > max,
        n == ceil_div(len, max),
        0 <= i < n,
    ensures
        1 <= rounded_div((i + 1) * len, n) - rounded_div(i * len, n) <= max,
{
    lemma_ceil_bounds(len, max);
    assert(n >= 2) by (nonlinear_arith)
        requires
            len <= n * max,
            len > max,
            max >= 1,
    ;
    assert(n <= len) by (nonlinear_arith)
        requires
            (n - 1) * max < len,
            max >= 1,
            n >= 2,
    ;
    let m = 2 * n;
    let x = 2 * (i * len) + n;
    let d = 2 * len;
    assert(2 * ((i + 1) * len) + n == x + d) by (nonlinear_arith)
        requires
            x == 2 * (i * len) + n,
            d == 2 * len,
    ;
    let qx = x / m;
    let rx = x % m;
    let qd = d / m;
    let rd = d % m;
    vstd::arithmetic::div_mod::lemma_fundamental_div_mod(x, m);
    vstd::arithmetic::div_mod::lemma_fundamental_div_mod(d, m);
    if rx + rd < m {
        assert(x + d == m * (qx + qd) + (rx + rd)) by (nonlinear_arith)
            requires
                x == m * qx + rx,
                d == m * qd + rd,
        ;
        vstd::arithmetic::div_mod::lemma_fundamental_div_mod_converse(x + d, m, qx + qd, rx + rd);
    } else {
        assert(x + d == m * (qx + qd + 1) + (rx + rd - m)) by (nonlinear_arith)
            requires
                x == m * qx + rx,
                d == m * qd + rd,
        ;
        vstd::arithmetic::div_mod::lemma_fundamental_div_mod_converse(
            x + d,
            m,
            qx + qd + 1,
            rx + rd - m,
        );
    }
    assert(qd >= 1) by (nonlinear_arith)
        requires
            d == m * qd + rd,
            0 <= rd < m,
            d >= m,
    ;
    assert(m * qd <= 2 * n * max) by (nonlinear_arith)
        requires
            d == m * qd + rd,
            rd >= 0,
            d == 2 * len,
            len <= n * max,
    ;
    assert(qd <= max) by (nonlinear_arith)
        requires
            m * qd <= 2 * n * max,
            m == 2 * n,
            n >= 1,
    ;
    if rd > 0 {
        assert(qd < max) by (nonlinear_arith)
            requires
                d == m * qd + rd,
                rd > 0,
                d == 2 * len,
                len <= n * max,
                m == 2 * n,
                n >= 1,
        ;
    }
}

proof fn lemma_even_ends(len: int, n: int)
    requires
        n >= 1,
        len >= 0,
    ensures
        rounded_div(0 * len, n) == 0,
        rounded_div(n * len, n) == len,
{
    assert(0 * len == 0);
    vstd::arithmetic::div_mod::lemma_fundamental_div_mod_converse(2 * 0 + n, 2 * n, 0, n);
    assert(2 * (n * len) + n == (2 * n) * len + n) by (nonlinear_arith);
    vstd::arithmetic::div_mod::lemma_fundamental_div_mod_converse(2 * (n * len) + n, 2 * n, len, n);
}

/// Between consecutive split points `a < b`, the cut points continue from `a` in steps of
/// at least one and at most `max`, and end at `b`.
proof fn lemma_sub_splits_steps(a: usize, b: usize, max: int)
    requires
        a < b,
        max >= 1,
    ensures
        steps_ok(seq![a] + sub_splits(a, b, max), max),
        sub_splits(a, b, max).len() >= 1,
        sub_splits(a, b, max).last() == b,
{
    let len = b - a;
    let q = sub_splits(a, b, max);
    let full = seq![a] + q;
    if len <= max {
        assert(step_ok(full, 0, max));
        return;
    }
    let n = ceil_div(len, max);
    lemma_ceil_bounds(len, max);
    assert(n >= 2 && n <= len) by (nonlinear_arith)
        requires
            len <= n * max,
            (n - 1) * max < len,
            len > max,
            max >= 1,
    ;
    lemma_even_ends(len, n);
    assert forall|j: int| 0 <= j <= n implies #[trigger] full[j] == a + rounded_div(j * len, n) by {
        lemma_even_prefix(len, max, n, j);
        if j == 0 {
        } else if j < n {
            assert(full[j] == q[j - 1]);
            assert(q[j - 1] == even_split_point(a, b, n, j));
            assert(rounded_div(j * len, n) + (n - j) <= len);
        } else {
            assert(full[j] == q[n - 1]);
        }
    }
    assert forall|i: int| 0 <= i < full.len() - 1 implies #[trigger] step_ok(full, i, max) by {
        lemma_even_step(len, max, n, i);
        assert(full[i] == a + rounded_div(i * len, n));
        assert(full[i + 1] == a + rounded_div((i + 1) * len, n));
    }
}

/// From the start, the even split points reach `j` pieces' worth: at least `j`, and at
/// least `n - j` short of the end.
proof fn lemma_even_prefix(len: int, max: int, n: int, j: int)
    requires
        max >= 1,
        len > max,
        n == ceil_div(len, max),
        0 <= j <= n,
    ensures
        rounded_div(j * len, n) >= j,
        rounded_div(j * len, n) + (n - j) <= len,
    decreases j,
{
    lemma_ceil_bounds(len, max);
    lemma_even_ends(len, n);
    if j > 0 {
        lemma_even_prefix(len, max, n, j - 1);
        lemma_even_step(len, max, n, j - 1);
        assert(j - 1 + 1 == j);
    }
    lemma_even_suffix(len, max, n, j);
}

proof fn lemma_even_suffix(len: int, max: int, n: int, j: int)
    requires
        max >= 1,
        len > max,
        n == ceil_div(len, max),
        0 <= j <= n,
    ensures
        rounded_div(j * len, n) + (n - j) <= len,
    decreases n - j,
{
    lemma_ceil_bounds(len, max);
    lemma_even_ends(len, n);
    if j < n {
        lemma_even_suffix(len, max, n, j + 1);
        lemma_even_step(len, max, n, j);
    }
}

proof fn lemma_steps_append(p: Seq<usize>, q: Seq<usize>, max: int)
    requires
        steps_ok(p, max),
        steps_ok(seq![p.last()] + q, max),
    ensures
        steps_ok(p + q, max),
        q.len() > 0 ==> (p + q).last() == q.last(),
{
    let r = p + q;
    let s = seq![p.last()] + q;
    assert forall|i: int| 0 <= i < r.len() - 1 implies #[trigger] step_ok(r, i, max) by {
        if i < p.len() - 1 {
            assert(step_ok(p, i, max));
        } else {
            let k = i - (p.len() - 1);
            assert(step_ok(s, k, max));
            assert(r[i] == s[k]);
            assert(r[i + 1] == s[k + 1]);
        }
    }
}

proof fn lemma_refined_steps(splits: Seq<usize>, max: int, w: nat)
    requires
        strictly_increasing(splits),
        splits.len() >= 1,
        splits[0] == 0,
        w < splits.len(),
        max >= 1,
    ensures
        steps_ok(refined_prefix(splits, max, w), max),
        refined_prefix(splits, max, w)[0] == 0,
        refined_prefix(splits, max, w).last() == splits[w as int],
    decreases w,
{
    if w > 0 {
        lemma_refined_steps(splits, max, (w - 1) as nat);
        let p = refined_prefix(splits, max, (w - 1) as nat);
        let q = sub_splits(splits[w - 1], splits[w as int], max);
        lemma_sub_splits_steps(splits[w - 1], splits[w as int], max);
        lemma_steps_append(p, q, max);
    }
}

proof fn lemma_steps_below_last(p: Seq<usize>, max: int, i: int)
    requires
        steps_ok(p, max),
        0 <= i < p.len(),
    ensures
        p[i] <= p.last(),
    decreases p.len() - i,
{
    if i < p.len() - 1 {
        assert(step_ok(p, i, max));
        lemma_steps_below_last(p, max, i + 1);
    }
}

proof fn lemma_ranges_consecutive(p: Seq<usize>, max: int, num_samples: int, w: nat)
    requires
        steps_ok(p, max),
        p.last() <= num_samples,
        w < p.len(),
    ensures
        ranges_prefix(p, num_samples, w) == Seq::new(
            w,
            |i: int| ChunkRange { start_sample: p[i], end_sample: p[i + 1] },
        ),
    decreases w,
{
    if w > 0 {
        lemma_ranges_consecutive(p, max, num_samples, (w - 1) as nat);
        assert(step_ok(p, w - 1, max));
        lemma_steps_below_last(p, max, w as int);
        assert(ranges_prefix(p, num_samples, w) =~= Seq::new(
            w,
            |i: int| ChunkRange { start_sample: p[i], end_sample: p[i + 1] },
        ));
    }
}

proof fn lemma_nearest_splits_within(points: Seq<usize>, step: int, num_samples: int, k: nat)
    requires
        points.len() >= 1,
    ensures
        forall|x: usize| #[trigger] nearest_splits(points, step, num_samples, k).contains(x)
            ==> points.contains(x),
    decreases k,
{
    if k > 0 {
        lemma_nearest_splits_within(points, step, num_samples, (k - 1) as nat);
        lemma_nearest_in(points, k * step);
        let prev = nearest_splits(points, step, num_samples, (k - 1) as nat);
        assert forall|x: usize| #[trigger] nearest_splits(points, step, num_samples, k).contains(x)
            implies points.contains(x) by {
            if x != nearest_point(points, k * step) {
                assert(prev.contains(x));
            }
        }
    }
}

proof fn lemma_sorted_first_last(s: Seq<usize>, lo: usize, hi: usize)
    requires
        strictly_increasing(s),
        s.to_set().contains(lo),
        s.to_set().contains(hi),
        forall|x: usize| #[trigger] s.to_set().contains(x) ==> lo <= x <= hi,
    ensures
        s.len() >= 1,
        s[0] == lo,
        s.last() == hi,
{
    let i = choose|i: int| 0 <= i < s.len() && s[i] == lo;
    let j = choose|j: int| 0 <= j < s.len() && s[j] == hi;
    assert(s.to_set().contains(s[0]));
    assert(s.to_set().contains(s.last()));
    if i > 0 {
        assert(s[0] < s[i]);
    }
    if j < s.len() - 1 {
        assert(s[j] < s[s.len() - 1]);
    }
}

/// When every speech segment starts inside the audio, the planned chunks cover the audio
/// exactly, in order, each non-empty and at most `max` samples long.
pub proof fn lemma_planned_chunks_tile(
    speech: Seq<SpeechTimestamp>,
    num_samples: usize,
    step: int,
    max: int,
    points: Seq<usize>,
    splits: Seq<usize>,
)
    requires
        step >= 1,
        max >= 1,
        forall|i: int| 0 <= i < speech.len() ==> #[trigger] speech[i].start <= num_samples,
        strictly_increasing(points),
        points.to_set() == candidate_points(speech, num_samples as int),
        strictly_increasing(splits),
        splits.to_set() == split_points(points, step, num_samples as int),
    ensures
        tiles_audio(chunks_from_splits(splits, max, num_samples as int), num_samples as int, max),
{
    let cand = candidate_points(speech, num_samples as int);
    assert(cand.contains(0usize));
    assert(points.to_set().contains(0usize));
    assert(points.len() >= 1);
    assert forall|x: usize| #[trigger] points.to_set().contains(x) implies x <= num_samples by {
        assert(cand.contains(x));
    }
    lemma_nearest_splits_within(points, step, num_samples as int, num_samples as nat);
    assert forall|x: usize| #[trigger] splits.to_set().contains(x) implies 0 <= x <= num_samples by {
        if nearest_splits(points, step, num_samples as int, num_samples as nat).contains(x) {
            assert(points.contains(x));
            let k = choose|k: int| 0 <= k < points.len() && points[k] == x;
            assert(points.to_set().contains(points[k]));
        }
    }
    assert(splits.to_set().contains(0usize));
    assert(splits.to_set().contains(num_samples));
    lemma_sorted_first_last(splits, 0, num_samples);
    let w = (splits.len() - 1) as nat;
    lemma_refined_steps(splits, max, w);
    let refined = refined_prefix(splits, max, w);
    lemma_ranges_consecutive(refined, max, num_samples as int, (refined.len() - 1) as nat);
    let chunks = chunks_from_splits(splits, max, num_samples as int);
    assert forall|i: int| 0 <= i < chunks.len() implies #[trigger] chunks[i].start_sample
        < chunks[i].end_sample && chunks[i].end_sample - chunks[i].start_sample <= max by {
        assert(step_ok(refined, i, max));
    }
    if num_samples == 0 {
        if refined.len() > 1 {
            assert(step_ok(refined, 0, max));
            lemma_steps_below_last(refined, max, 1);
        }
    } else {
        assert(refined.len() > 1);
    }
}

} // verus!
