use qwen3_asr_toolkit::text::{
    fix_char_repeats, fix_pattern_repeats, format_timestamp, post_text_process, srt_content,
};

// An independent, unverified rendering of the same cleanup rules, used as a test oracle.
fn reference_char_repeats(input: &str, threshold: usize) -> String {
    let chars = input.chars().collect::<Vec<_>>();
    let mut result = String::new();
    let mut index = 0;
    while index < chars.len() {
        let mut count = 1;
        while index + count < chars.len() && chars[index + count] == chars[index] {
            count += 1;
        }
        if count > threshold {
            result.push(chars[index]);
        } else {
            for _ in 0..count {
                result.push(chars[index]);
            }
        }
        index += count;
    }
    result
}

fn reference_pattern_repeats(input: &str, threshold: usize, max_len: usize) -> String {
    let chars = input.chars().collect::<Vec<_>>();
    let min_repeat_chars = threshold * 2;
    if chars.len() < min_repeat_chars {
        return input.to_string();
    }
    let mut index = 0;
    let mut result = String::new();
    let mut found = false;
    while index <= chars.len().saturating_sub(min_repeat_chars) {
        let mut matched = false;
        for k in 1..=max_len {
            if index + k * threshold > chars.len() {
                break;
            }
            let pattern = &chars[index..index + k];
            let mut valid = true;
            for rep in 1..threshold {
                let start_idx = index + rep * k;
                if &chars[start_idx..start_idx + k] != pattern {
                    valid = false;
                    break;
                }
            }
            if valid {
                let mut end_index = index + threshold * k;
                while end_index + k <= chars.len() && &chars[end_index..end_index + k] == pattern {
                    end_index += k;
                }
                for ch in pattern {
                    result.push(*ch);
                }
                let tail = chars[end_index..].iter().collect::<String>();
                result.push_str(&reference_pattern_repeats(&tail, threshold, max_len));
                found = true;
                matched = true;
                index = chars.len();
                break;
            }
        }
        if matched {
            break;
        }
        result.push(chars[index]);
        index += 1;
    }
    if !found {
        result.push_str(&chars[index..].iter().collect::<String>());
    }
    result
}

struct Lcg(u64);

impl Lcg {
    fn next(&mut self) -> u64 {
        self.0 = self.0.wrapping_mul(6364136223846793005).wrapping_add(1442695040888963407);
        self.0 >> 33
    }
}

fn random_text(rng: &mut Lcg, alphabet: &[char], max_len: u64) -> String {
    let len = rng.next() % (max_len + 1);
    let mut s = String::new();
    let mut i = 0;
    while i < len {
        let c = alphabet[(rng.next() % alphabet.len() as u64) as usize];
        // favour repetition of short patterns
        let reps = 1 + rng.next() % 6;
        for _ in 0..reps {
            s.push(c);
        }
        if rng.next() % 3 == 0 {
            let k = (1 + rng.next() % 3) as usize;
            let snapshot: Vec<char> = s.chars().collect();
            if snapshot.len() >= k {
                let pat: String = snapshot[snapshot.len() - k..].iter().collect();
                for _ in 0..(rng.next() % 5) {
                    s.push_str(&pat);
                }
            }
        }
        i += reps;
    }
    s
}

#[test]
fn post_process_repeated_chars() {
    assert_eq!(post_text_process("aaaaaaaaaaaaaaaaaaaaa", 20), "a");
}

#[test]
fn post_process_repeated_patterns() {
    assert_eq!(
        post_text_process("abcabcabcabcabcabcabcabcabcabcabcabcabcabcabcabcabcabcabcabc", 20),
        "abc"
    );
}

#[test]
fn post_process_short_text_unchanged() {
    assert_eq!(post_text_process("hello world", 20), "hello world");
    assert_eq!(post_text_process("", 20), "");
}

#[test]
fn char_repeats_collapse_long_runs_only() {
    let input: Vec<char> = "aaabccccd".chars().collect();
    let out: String = fix_char_repeats(&input, 3).into_iter().collect();
    assert_eq!(out, "aaabcd");
}

#[test]
fn char_repeats_twice_changes_nothing() {
    let mut rng = Lcg(7);
    for _ in 0..300 {
        let text = random_text(&mut rng, &['x', 'y', 'z'], 40);
        let chars: Vec<char> = text.chars().collect();
        for t in 0..5 {
            let once = fix_char_repeats(&chars, t);
            let twice = fix_char_repeats(&once, t);
            assert_eq!(once, twice);
            assert!(once.len() <= chars.len());
        }
    }
}

#[test]
fn char_repeats_threshold_zero_collapses_every_run() {
    let chars: Vec<char> = "aabccca".chars().collect();
    let once: String = fix_char_repeats(&chars, 0).into_iter().collect();
    assert_eq!(once, "abca");
}

#[test]
fn pattern_repeats_keep_one_copy() {
    let input: Vec<char> = "xxabababy".chars().collect();
    let out: String = fix_pattern_repeats(&input, 3, 20).into_iter().collect();
    assert_eq!(out, "xxaby");
}

#[test]
fn cleanup_matches_reference_on_generated_text() {
    let mut rng = Lcg(12345);
    for _ in 0..2000 {
        let text = random_text(&mut rng, &['a', 'b', 'c', '中'], 60);
        for threshold in 1..6 {
            for max_len in [1usize, 2, 3, 20] {
                let chars: Vec<char> = text.chars().collect();
                let ours: String = fix_char_repeats(&chars, threshold).into_iter().collect();
                assert_eq!(ours, reference_char_repeats(&text, threshold));
                let ours_p: String =
                    fix_pattern_repeats(&chars, threshold, max_len).into_iter().collect();
                assert_eq!(ours_p, reference_pattern_repeats(&text, threshold, max_len));
            }
            let full = post_text_process(&text, threshold);
            let expected =
                reference_pattern_repeats(&reference_char_repeats(&text, threshold), threshold, 20);
            assert_eq!(full, expected);
            assert!(full.chars().count() <= text.chars().count());
        }
    }
}

#[test]
fn timestamp_examples() {
    assert_eq!(format_timestamp(0), "00:00:00,000");
    assert_eq!(format_timestamp(1_000), "00:00:01,000");
    assert_eq!(format_timestamp(1), "00:00:00,001");
    assert_eq!(format_timestamp(3_661_500), "01:01:01,500");
    assert_eq!(format_timestamp(360_000_000), "100:00:00,000");
}

#[test]
fn timestamp_matches_format_macro() {
    let mut total_ms = 0u64;
    while total_ms < 400_000_000 {
        let expected = format!(
            "{:02}:{:02}:{:02},{:03}",
            total_ms / 3_600_000,
            (total_ms % 3_600_000) / 60_000,
            (total_ms % 60_000) / 1_000,
            total_ms % 1_000
        );
        assert_eq!(format_timestamp(total_ms), expected);
        total_ms += 997;
    }
}

#[test]
fn srt_entries_are_numbered_from_zero() {
    let chunks = vec![(0u64, 1_000u64), (1_000, 2_500)];
    let results = vec![(0usize, "hello".to_string()), (1, "world".to_string())];
    let content = srt_content(&chunks, &results);
    assert_eq!(
        content,
        "0\n00:00:00,000 --> 00:00:01,000\nhello\n\n1\n00:00:01,000 --> 00:00:02,500\nworld\n\n"
    );
}
