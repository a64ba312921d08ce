use std::collections::BTreeSet;

use qwen3_asr_toolkit::vad::WindowLevel::{Neutral, Silence, Speech};
use qwen3_asr_toolkit::vad::{
    chunk_ranges, fallback_chunk_ranges, speech_chunk_ranges, speech_timestamps, ChunkRange,
    SpeechTimestamp, WindowLevel,
};

fn tiles(chunks: &[ChunkRange], num_samples: usize, max: usize) -> bool {
    if num_samples == 0 {
        return chunks.is_empty();
    }
    if chunks.is_empty() || chunks[0].start_sample != 0 {
        return false;
    }
    if chunks[chunks.len() - 1].end_sample != num_samples {
        return false;
    }
    for (i, c) in chunks.iter().enumerate() {
        if c.start_sample >= c.end_sample || c.end_sample - c.start_sample > max {
            return false;
        }
        if i + 1 < chunks.len() && c.end_sample != chunks[i + 1].start_sample {
            return false;
        }
    }
    true
}

// An independent, unverified rendering of the splitting rules (dividing long pieces with
// floating-point arithmetic), used as a test oracle.
fn reference_split(
    len: usize,
    starts: &[usize],
    segment_threshold_s: usize,
    max_segment_threshold_s: usize,
) -> Vec<(usize, usize)> {
    let mut potential = BTreeSet::new();
    potential.insert(0usize);
    potential.insert(len);
    for s in starts {
        potential.insert(*s);
    }
    let sorted: Vec<usize> = potential.into_iter().collect();
    let mut finals = BTreeSet::new();
    finals.insert(0usize);
    finals.insert(len);
    let seg = segment_threshold_s * 16_000;
    let mut target = seg;
    while target < len {
        let closest = *sorted.iter().min_by_key(|p| p.abs_diff(target)).unwrap();
        finals.insert(closest);
        target += seg;
    }
    let ordered: Vec<usize> = finals.into_iter().collect();
    let max = max_segment_threshold_s * 16_000;
    let mut refined = vec![0usize];
    for w in ordered.windows(2) {
        let (start, end) = (w[0], w[1]);
        let l = end.saturating_sub(start);
        if l <= max {
            refined.push(end);
            continue;
        }
        let n = l.div_ceil(max);
        let sub = l as f64 / n as f64;
        for index in 1..n {
            let p = start + (index as f64 * sub).round() as usize;
            refined.push(p.min(end));
        }
        refined.push(end);
    }
    let mut out = Vec::new();
    for w in refined.windows(2) {
        if w[1] <= w[0] || w[1] > len {
            continue;
        }
        out.push((w[0], w[1]));
    }
    out
}

struct Lcg(u64);

impl Lcg {
    fn next(&mut self) -> u64 {
        self.0 = self.0.wrapping_mul(6364136223846793005).wrapping_add(1442695040888963407);
        self.0 >> 33
    }
}

#[test]
fn speech_segments_from_levels() {
    // 100 windows of speech, 20 of silence, then 10 of speech that is too short.
    let mut levels = vec![Speech; 100];
    levels.extend(vec![Silence; 20]);
    levels.extend(vec![Speech; 10]);
    let num_samples = levels.len() * 512;
    let segs = speech_timestamps(&levels, num_samples);
    assert_eq!(segs, vec![SpeechTimestamp { start: 0, end: 100 * 512 }]);
}

#[test]
fn speech_running_to_the_end_is_kept() {
    let mut levels = vec![Neutral; 3];
    levels.extend(vec![Speech; 60]);
    let num_samples = levels.len() * 512 - 100;
    let segs = speech_timestamps(&levels, num_samples);
    assert_eq!(segs, vec![SpeechTimestamp { start: 3 * 512, end: num_samples }]);
}

#[test]
fn short_silence_does_not_split() {
    let mut levels = vec![Speech; 60];
    levels.extend(vec![Silence; 10]);
    levels.extend(vec![Speech; 60]);
    levels.extend(vec![Silence; 30]);
    let num_samples = levels.len() * 512;
    let segs = speech_timestamps(&levels, num_samples);
    assert_eq!(segs, vec![SpeechTimestamp { start: 0, end: 130 * 512 }]);
}

#[test]
fn fallback_chunks_cover_audio() {
    let chunks = fallback_chunk_ranges(16_000 * 400 + 5, 180);
    assert_eq!(chunks.len(), 3);
    assert_eq!(chunks[0], ChunkRange { start_sample: 0, end_sample: 16_000 * 180 });
    assert_eq!(chunks[2].end_sample, 16_000 * 400 + 5);
    assert!(tiles(&chunks, 16_000 * 400 + 5, 16_000 * 180));
    assert!(fallback_chunk_ranges(0, 180).is_empty());
}

#[test]
fn no_speech_means_no_plan() {
    assert!(speech_chunk_ranges(1000, &[], 120, 180).is_none());
    let chunks = chunk_ranges(16_000 * 200, &[], 120, 180);
    assert_eq!(chunks, fallback_chunk_ranges(16_000 * 200, 180));
}

#[test]
fn plan_cuts_near_targets() {
    let len = 16_000 * 300;
    let speech = [
        SpeechTimestamp { start: 16_000 * 10, end: 16_000 * 100 },
        SpeechTimestamp { start: 16_000 * 118, end: 16_000 * 290 },
    ];
    let chunks = chunk_ranges(len, &speech, 120, 180);
    assert_eq!(
        chunks,
        vec![
            ChunkRange { start_sample: 0, end_sample: 16_000 * 118 },
            ChunkRange { start_sample: 16_000 * 118, end_sample: 16_000 * 209 },
            ChunkRange { start_sample: 16_000 * 209, end_sample: 16_000 * 300 },
        ]
    );
}

#[test]
fn plan_matches_reference_and_tiles() {
    let mut rng = Lcg(99);
    for _ in 0..400 {
        let seconds = 1 + rng.next() % 2000;
        let len = (seconds * 16_000 + rng.next() % 16_000) as usize;
        let count = 1 + rng.next() % 12;
        let mut starts: Vec<usize> = (0..count).map(|_| (rng.next() as usize) % (len + 1)).collect();
        starts.sort();
        let speech: Vec<SpeechTimestamp> =
            starts.iter().map(|s| SpeechTimestamp { start: *s, end: *s }).collect();
        let seg = 1 + (rng.next() % 400) as usize;
        let max = 1 + (rng.next() % 300) as usize;
        let chunks = chunk_ranges(len, &speech, seg, max);
        let got: Vec<(usize, usize)> =
            chunks.iter().map(|c| (c.start_sample, c.end_sample)).collect();
        assert_eq!(got, reference_split(len, &starts, seg, max));
        assert!(tiles(&chunks, len, max * 16_000));
    }
}

// An independent, unverified rendering of the speech scan, used as a test oracle.
fn reference_speech(levels: &[WindowLevel], len: usize) -> Vec<SpeechTimestamp> {
    let min_speech = 16_000 * 1500 / 1000;
    let min_silence = 16_000 * 500 / 1000;
    let mut triggered = false;
    let mut speeches = Vec::new();
    let mut current: Option<SpeechTimestamp> = None;
    let mut temp_end = 0usize;
    for (index, level) in levels.iter().copied().enumerate() {
        if level == Speech && temp_end != 0 {
            temp_end = 0;
        }
        if level == Speech && !triggered {
            triggered = true;
            current = Some(SpeechTimestamp { start: 512 * index, end: 0 });
            continue;
        }
        if level == Silence && triggered {
            if temp_end == 0 {
                temp_end = 512 * index;
            }
            if 512 * index - temp_end < min_silence {
                continue;
            }
            if let Some(mut speech) = current.take() {
                speech.end = temp_end;
                if speech.end.saturating_sub(speech.start) > min_speech {
                    speeches.push(speech);
                }
            }
            temp_end = 0;
            triggered = false;
        }
    }
    if triggered {
        if let Some(mut speech) = current.take() {
            speech.end = len;
            if speech.end.saturating_sub(speech.start) > min_speech {
                speeches.push(speech);
            }
        }
    }
    speeches
}

#[test]
fn speech_scan_matches_reference_and_is_well_placed() {
    let mut rng = Lcg(4242);
    for _ in 0..500 {
        let mut levels = Vec::new();
        let blocks = rng.next() % 20;
        for _ in 0..blocks {
            let level = match rng.next() % 3 {
                0 => Speech,
                1 => Neutral,
                _ => Silence,
            };
            let n = rng.next() % 80;
            for _ in 0..n {
                levels.push(level);
            }
        }
        let len = if levels.is_empty() {
            0
        } else {
            levels.len() * 512 - (rng.next() % 512) as usize
        };
        let segs = speech_timestamps(&levels, len);
        assert_eq!(segs, reference_speech(&levels, len));
        for (i, s) in segs.iter().enumerate() {
            assert!(s.end - s.start > 24_000);
            assert!(s.end <= len);
            if i + 1 < segs.len() {
                assert!(s.end <= segs[i + 1].start);
            }
        }
    }
}
