use vstd::prelude::*;

use crate::chars::{
    append_chars, append_str, chars_of, decimal, decimal_chars, string_from_chars, zero_padded,
    zero_padded_decimal,
};

verus! {

/// Length of the run of equal characters at the front of `s`.
pub open spec fn lead_run(s: Seq<char>) -> nat
    decreases s.len(),
{
    if s.len() <= 1 {
        s.len()
    } else if s[1] == s[0] {
        1 + lead_run(s.drop_first())
    } else {
        1
    }
}

pub proof fn lemma_lead_run_bounds(s: Seq<char>)
    ensures
        s.len() > 0 ==> 1 <= lead_run(s) <= s.len(),
        s.len() == 0 ==> lead_run(s) == 0,
    decreases s.len(),
{
    if s.len() > 1 && s[1] == s[0] {
        lemma_lead_run_bounds(s.drop_first());
    }
}

/// A run of `count` copies of `s[0]` that is not followed by another copy
/// is exactly the leading run.
proof fn lemma_lead_run_is(s: Seq<char>, count: nat)
    requires
        1 <= count <= s.len(),
        forall|j: int| 0 <= j < count ==> #[trigger] s[j] == s[0],
        count == s.len() || s[count as int] != s[0],
    ensures
        lead_run(s) == count,
    decreases count,
{
    if count > 1 {
        let t = s.drop_first();
        assert(t[0] == s[0]);
        assert forall|j: int| 0 <= j < count - 1 implies #[trigger] t[j] == t[0] by {
            assert(s[j + 1] == s[0]);
        }
        lemma_lead_run_is(t, (count - 1) as nat);
    }
}

/// `s` with every run of equal characters longer than `threshold` collapsed to a
/// single character; shorter runs are kept as they are.
pub open spec fn collapse_char_runs(s: Seq<char>, threshold: int) -> Seq<char>
    decreases s.len(),
{
    if s.len() == 0 {
        Seq::empty()
    } else {
        let n = lead_run(s);
        proof {
            lemma_lead_run_bounds(s);
        }
        let kept = if n > threshold {
            seq![s[0]]
        } else {
            s.take(n as int)
        };
        kept + collapse_char_runs(s.skip(n as int), threshold)
    }
}

/// Collapses every run of one character longer than `threshold` to that single character.
pub fn fix_char_repeats(input: &[char], threshold: usize) -> (r: Vec<char>)
    ensures
        r@ == collapse_char_runs(input@, threshold as int),
{
    let len = input.len();
    let mut result: Vec<char> = Vec::new();
    let mut index: usize = 0;
    assert(input@.skip(0) =~= input@);
    while index < len
        invariant
            len == input@.len(),
            index <= len,
            result@ + collapse_char_runs(input@.skip(index as int), threshold as int)
                == collapse_char_runs(input@, threshold as int),
        decreases len - index,
    {
        let mut count: usize = 1;
        while index + count < len && input[index + count] == input[index]
            invariant
                len == input@.len(),
                index < len,
                1 <= count,
                index + count <= len,
                forall|j: int| index <= j < index + count ==> input@[j] == input@[index as int],
            decreases len - index - count,
        {
            count = count + 1;
        }
        let ghost rest = input@.skip(index as int);
        proof {
            assert forall|j: int| 0 <= j < count implies #[trigger] rest[j] == rest[0] by {
                assert(input@[index + j] == input@[index as int]);
            }
            lemma_lead_run_is(rest, count as nat);
        }
        let ghost before = result@;
        if count > threshold {
            result.push(input[index]);
        } else {
            let mut c: usize = 0;
            while c < count
                invariant
                    len == input@.len(),
                    index + count <= len,
                    c <= count,
                    result@ == before + input@.subrange(index as int, index + c),
                decreases count - c,
            {
                result.push(input[index + c]);
                c = c + 1;
                assert(input@.subrange(index as int, index + c) =~= input@.subrange(
                    index as int,
                    index + c - 1,
                ).push(input@[index + c - 1]));
            }
            assert(input@.subrange(index as int, index + count) =~= rest.take(count as int));
        }
        assert(rest.skip(count as int) =~= input@.skip(index + count));
        assert(result@ + collapse_char_runs(input@.skip(index + count), threshold as int)
            =~= before + collapse_char_runs(rest, threshold as int));
        index = index + count;
    }
    assert(result@ + collapse_char_runs(input@.skip(index as int), threshold as int)
        =~= result@);
    result
}


/// The `k * t` characters of `s` from `i` on are the pattern `s[i..i + k]` written `t`
/// times in a row (equivalently: that stretch has period `k`).
pub open spec fn repeated_at(s: Seq<char>, i: int, k: int, t: int) -> bool {
    &&& 0 <= i
    &&& i + k * t <= s.len()
    &&& forall|j: int| i <= j < i + k * t - k ==> #[trigger] s[j] == s[j + k]
}

/// The blocks `s[a..a + k]` and `s[b..b + k]` are equal.
pub open spec fn blocks_equal(s: Seq<char>, a: int, b: int, k: int) -> bool {
    forall|q: int| 0 <= q < k ==> #[trigger] s[a + q] == s[b + q]
}

/// The shortest pattern length in `k..=max_len` that repeats `t` times from `i`, trying
/// lengths in increasing order and giving up at the first length whose `t` repetitions
/// would not fit before the end of `s`.
pub open spec fn first_repeat_len(s: Seq<char>, i: int, t: int, max_len: int, k: int) -> Option<int>
    decreases max_len + 1 - k,
{
    if k < 1 || k > max_len || i + k * t > s.len() {
        None
    } else if repeated_at(s, i, k, t) {
        Some(k)
    } else {
        first_repeat_len(s, i, t, max_len, k + 1)
    }
}

/// Where the run of copies of the pattern `s[i..i + k]` that continues at `e` ends.
pub open spec fn repeat_end(s: Seq<char>, i: int, k: int, e: int) -> int
    decreases s.len() - e,
{
    if k > 0 && e + k <= s.len() && blocks_equal(s, e, i, k) {
        repeat_end(s, i, k, e + k)
    } else {
        e
    }
}

pub proof fn lemma_first_repeat_len(s: Seq<char>, i: int, t: int, max_len: int, k: int)
    requires
        t >= 1,
    ensures
        first_repeat_len(s, i, t, max_len, k) matches Some(r) ==> {
            &&& k <= r <= max_len
            &&& 1 <= r
            &&& i + r * t <= s.len()
            &&& r <= r * t
            &&& repeated_at(s, i, r, t)
        },
    decreases max_len + 1 - k,
{
    if k < 1 || k > max_len || i + k * t > s.len() {
    } else if repeated_at(s, i, k, t) {
        assert(k <= k * t) by (nonlinear_arith)
            requires
                k >= 1,
                t >= 1,
        ;
    } else {
        lemma_first_repeat_len(s, i, t, max_len, k + 1);
    }
}

pub proof fn lemma_repeat_end(s: Seq<char>, i: int, k: int, e: int)
    requires
        e <= s.len(),
    ensures
        e <= repeat_end(s, i, k, e) <= s.len(),
    decreases s.len() - e,
{
    if k > 0 && e + k <= s.len() && blocks_equal(s, e, i, k) {
        lemma_repeat_end(s, i, k, e + k);
    }
}

/// Collapses repeated patterns: scanning from the front, at the first position where a
/// pattern of at most `max_len` characters is written at least `t` times in a row, all
/// those copies are replaced by one copy and the rest is processed the same way.
/// Inputs shorter than `2 * t` are left as they are.
pub open spec fn collapse_pattern_repeats(s: Seq<char>, t: int, max_len: int) -> Seq<char>
    decreases s.len(), s.len() + 1,
{
    if t < 1 || s.len() < 2 * t {
        s
    } else {
        scan_pattern_repeats(s, t, max_len, 0)
    }
}

/// The output of the pattern scan from position `i` on.
pub open spec fn scan_pattern_repeats(s: Seq<char>, t: int, max_len: int, i: int) -> Seq<char>
    decreases s.len(), s.len() - i,
{
    if t >= 1 && 0 <= i <= s.len() - 2 * t {
        match first_repeat_len(s, i, t, max_len, 1) {
            Some(k) => {
                proof {
                    lemma_first_repeat_len(s, i, t, max_len, 1);
                    lemma_repeat_end(s, i, k, i + k * t);
                }
                let end = repeat_end(s, i, k, i + k * t);
                s.subrange(i, i + k) + collapse_pattern_repeats(s.skip(end), t, max_len)
            },
            None => seq![s[i]] + scan_pattern_repeats(s, t, max_len, i + 1),
        }
    } else {
        s.skip(i)
    }
}

proof fn lemma_div_bound(k: int, q: int, t: int)
    requires
        t >= 1,
        q >= 0,
        k >= 0,
    ensures
        (k <= q / t) <==> (k * t <= q),
{
    let d = q / t;
    let r = q % t;
    assert(q == d * t + r && 0 <= r < t) by {
        vstd::arithmetic::div_mod::lemma_fundamental_div_mod(q, t);
    }
    if k <= d {
        assert(k * t <= d * t) by (nonlinear_arith)
            requires
                k <= d,
                t >= 1,
        ;
    } else {
        assert(k * t >= (d + 1) * t) by (nonlinear_arith)
            requires
                k >= d + 1,
                t >= 1,
        ;
        assert((d + 1) * t == d * t + t) by (nonlinear_arith);
    }
}

/// The characters `input[from..to]` in a new vector.
fn copy_range(input: &[char], from: usize, to: usize) -> (r: Vec<char>)
    requires
        from <= to <= input@.len(),
    ensures
        r@ == input@.subrange(from as int, to as int),
{
    let mut r: Vec<char> = Vec::new();
    let mut j = from;
    while j < to
        invariant
            from <= j <= to,
            to <= input@.len(),
            r@ == input@.subrange(from as int, j as int),
        decreases to - j,
    {
        r.push(input[j]);
        j = j + 1;
        assert(r@ =~= input@.subrange(from as int, j as int));
    }
    r
}

/// Whether the `k * t` characters from `i` have period `k`.
fn is_repeated_at(input: &[char], i: usize, k: usize, t: usize) -> (r: bool)
    requires
        k >= 1,
        t >= 1,
        i + k * t <= input.len(),
    ensures
        r == repeated_at(input@, i as int, k as int, t as int),
{
    let kt = k * t;
    assert(k <= kt) by (nonlinear_arith)
        requires
            k >= 1,
            t >= 1,
            kt == k * t,
    ;
    let stop = i + kt - k;
    let mut j = i;
    while j < stop
        invariant
            i <= j,
            stop == i + kt - k,
            kt == k * t,
            k <= kt,
            i + kt <= input@.len(),
            forall|x: int| i <= x < j ==> #[trigger] input@[x] == input@[x + k],
        decreases stop - j,
    {
        if input[j] != input[j + k] {
            return false;
        }
        j = j + 1;
    }
    true
}

/// Whether `input[a..a + k]` equals `input[b..b + k]`.
fn is_block_equal(input: &[char], a: usize, b: usize, k: usize) -> (r: bool)
    requires
        a + k <= input.len(),
        b + k <= input.len(),
    ensures
        r == blocks_equal(input@, a as int, b as int, k as int),
{
    let mut q: usize = 0;
    while q < k
        invariant
            a + k <= input.len(),
            b + k <= input.len(),
            q <= k,
            forall|x: int| 0 <= x < q ==> #[trigger] input@[a + x] == input@[b + x],
        decreases k - q,
    {
        if input[a + q] != input[b + q] {
            assert(!(input@[a + q] == input@[b + q]));
            return false;
        }
        q = q + 1;
    }
    true
}

/// The shortest pattern length at `i` that repeats `t` times, or 0 when there is none.
fn find_repeat_len(input: &[char], i: usize, t: usize, max_len: usize) -> (r: usize)
    requires
        t >= 1,
        i <= input@.len(),
    ensures
        r == 0 <==> first_repeat_len(input@, i as int, t as int, max_len as int, 1) is None,
        r != 0 ==> first_repeat_len(input@, i as int, t as int, max_len as int, 1) == Some(
            r as int,
        ),
{
    let len = input.len();
    let mut k: usize = 1;
    if max_len == 0 {
        return 0;
    }
    while k <= max_len
        invariant
            len == input@.len(),
            i <= len,
            t >= 1,
            1 <= k <= max_len,
            first_repeat_len(input@, i as int, t as int, max_len as int, 1) == first_repeat_len(
                input@,
                i as int,
                t as int,
                max_len as int,
                k as int,
            ),
        decreases max_len - k,
    {
        proof {
            lemma_div_bound(k as int, (len - i) as int, t as int);
        }
        if k > (len - i) / t {
            assert(i + k * t > len);
            assert(first_repeat_len(input@, i as int, t as int, max_len as int, k as int) is None);
            assert(first_repeat_len(input@, i as int, t as int, max_len as int, 1) is None);
            return 0;
        }
        if is_repeated_at(input, i, k, t) {
            return k;
        }
        assert(i + k * t <= len);
        assert(first_repeat_len(input@, i as int, t as int, max_len as int, k as int)
            == first_repeat_len(input@, i as int, t as int, max_len as int, k + 1));
        if k == max_len {
            assert(first_repeat_len(input@, i as int, t as int, max_len as int, k + 1) is None);
            return 0;
        }
        k = k + 1;
    }
    0
}

/// Collapses repeated patterns of at most `max_len` characters that occur at least
/// `threshold` times in a row into a single copy.
pub fn fix_pattern_repeats(input: &[char], threshold: usize, max_len: usize) -> (r: Vec<char>)
    requires
        threshold >= 1,
    ensures
        r@ == collapse_pattern_repeats(input@, threshold as int, max_len as int),
    decreases input@.len(),
{
    let len = input.len();
    if len / 2 < threshold {
        return copy_range(input, 0, len);
    }
    let limit = len - 2 * threshold;
    let ghost s = input@;
    let ghost t = threshold as int;
    let ghost m = max_len as int;
    let mut result: Vec<char> = Vec::new();
    let mut index: usize = 0;
    while index <= limit
        invariant
            s == input@,
            len == s.len(),
            t == threshold,
            m == max_len,
            t >= 1,
            limit == len - 2 * t,
            index <= limit + 1,
            result@ + scan_pattern_repeats(s, t, m, index as int) == collapse_pattern_repeats(
                s,
                t,
                m,
            ),
        decreases limit + 1 - index,
    {
        let k = find_repeat_len(input, index, threshold, max_len);
        if k != 0 {
            proof {
                lemma_first_repeat_len(s, index as int, t, m, 1);
            }
            let mut end = index + k * threshold;
            let ghost start_end = end as int;
            proof {
                lemma_repeat_end(s, index as int, k as int, start_end);
            }
            while k <= len - end && is_block_equal(input, end, index, k)
                invariant
                    s == input@,
                    len == s.len(),
                    k >= 1,
                    index + k <= start_end <= end <= len,
                    repeat_end(s, index as int, k as int, start_end) == repeat_end(
                        s,
                        index as int,
                        k as int,
                        end as int,
                    ),
                decreases len - end,
            {
                end = end + k;
            }
            let ghost before = result@;
            let mut pattern = copy_range(input, index, index + k);
            result.append(&mut pattern);
            let mut tail = fix_pattern_repeats(&input[end..len], threshold, max_len);
            result.append(&mut tail);
            proof {
                assert(input@.subrange(end as int, len as int) =~= s.skip(end as int));
                assert(result@ =~= before + scan_pattern_repeats(s, t, m, index as int));
            }
            return result;
        }
        let ghost before = result@;
        result.push(input[index]);
        assert(result@ + scan_pattern_repeats(s, t, m, index + 1) =~= before
            + scan_pattern_repeats(s, t, m, index as int));
        index = index + 1;
    }
    let mut rest = copy_range(input, index, len);
    assert(rest@ =~= scan_pattern_repeats(s, t, m, index as int));
    result.append(&mut rest);
    result
}

/// Cleans recognised text: runs of one character longer than `threshold` become that
/// character, then patterns of up to 20 characters repeated at least `threshold` times
/// in a row become a single copy.
pub fn post_text_process(text: &str, threshold: usize) -> (r: String)
    requires
        threshold >= 1,
    ensures
        r@ == collapse_pattern_repeats(
            collapse_char_runs(text@, threshold as int),
            threshold as int,
            20,
        ),
{
    let chars = chars_of(text);
    let fixed_chars = fix_char_repeats(chars.as_slice(), threshold);
    let fixed = fix_pattern_repeats(fixed_chars.as_slice(), threshold, 20);
    string_from_chars(fixed.as_slice())
}


/// `HH:MM:SS,mmm` for `ms` milliseconds; hours take more digits when needed.
pub open spec fn timestamp_text(ms: nat) -> Seq<char> {
    zero_padded(decimal(ms / 3_600_000), 2) + seq![':'] + zero_padded(
        decimal((ms % 3_600_000) / 60_000),
        2,
    ) + seq![':'] + zero_padded(decimal((ms % 60_000) / 1_000), 2) + seq![','] + zero_padded(
        decimal(ms % 1_000),
        3,
    )
}

/// Formats a time of `total_ms` milliseconds as an SRT timestamp, `HH:MM:SS,mmm`.
pub fn format_timestamp(total_ms: u64) -> (r: String)
    ensures
        r@ == timestamp_text(total_ms as nat),
{
    let hours = total_ms / 3_600_000;
    let minutes = (total_ms % 3_600_000) / 60_000;
    let seconds = (total_ms % 60_000) / 1_000;
    let millis = total_ms % 1_000;
    let mut out = zero_padded_decimal(hours, 2);
    out.push(':');
    let mm = zero_padded_decimal(minutes, 2);
    append_chars(&mut out, mm.as_slice());
    out.push(':');
    let ss = zero_padded_decimal(seconds, 2);
    append_chars(&mut out, ss.as_slice());
    out.push(',');
    let ms = zero_padded_decimal(millis, 3);
    append_chars(&mut out, ms.as_slice());
    assert(out@ =~= timestamp_text(total_ms as nat));
    string_from_chars(out.as_slice())
}

/// One subtitle entry: its number, its time range in milliseconds and its text, then a
/// blank line.
pub open spec fn srt_entry(number: nat, start_ms: nat, end_ms: nat, text: Seq<char>) -> Seq<char> {
    decimal(number) + seq!['\n'] + timestamp_text(start_ms) + " --> "@ + timestamp_text(end_ms)
        + seq!['\n'] + text + seq!['\n'] + seq!['\n']
}

/// The subtitle file for the first `n` transcripts; entry `i` is numbered `i` and spans
/// the time of chunk `i`.
pub open spec fn srt_text(chunks: Seq<(u64, u64)>, texts: Seq<Seq<char>>, n: nat) -> Seq<
    char,
>
    decreases n,
{
    if n == 0 {
        Seq::empty()
    } else {
        srt_text(chunks, texts, (n - 1) as nat) + srt_entry(
            (n - 1) as nat,
            chunks[n - 1].0 as nat,
            chunks[n - 1].1 as nat,
            texts[n - 1],
        )
    }
}

/// The text of an SRT subtitle file: the `i`-th transcript of `results` becomes entry `i`,
/// timed by the `i`-th chunk's `(start, end)` in milliseconds.
pub fn srt_content(chunks: &[(u64, u64)], results: &[(usize, String)]) -> (r: String)
    requires
        results@.len() <= chunks@.len(),
    ensures
        r@ == srt_text(
            chunks@,
            results@.map_values(|p: (usize, String)| p.1@),
            results@.len() as nat,
        ),
{
    let ghost texts = results@.map_values(|p: (usize, String)| p.1@);
    let mut out: Vec<char> = Vec::new();
    let mut idx: usize = 0;
    while idx < results.len()
        invariant
            idx <= results@.len(),
            results@.len() <= chunks@.len(),
            texts == results@.map_values(|p: (usize, String)| p.1@),
            out@ == srt_text(chunks@, texts, idx as nat),
        decreases results@.len() - idx,
    {
        let ghost before = out@;
        let (start, end) = chunks[idx];
        let number = decimal_chars(idx as u64);
        append_chars(&mut out, number.as_slice());
        out.push('\n');
        let a = format_timestamp(start);
        append_str(&mut out, a.as_str());
        append_str(&mut out, " --> ");
        let b = format_timestamp(end);
        append_str(&mut out, b.as_str());
        out.push('\n');
        append_str(&mut out, results[idx].1.as_str());
        out.push('\n');
        out.push('\n');
        assert(out@ =~= before + srt_entry(idx as nat, start as nat, end as nat, texts[idx as int]));
        idx = idx + 1;
    }
    string_from_chars(out.as_slice())
}


/// The `len` characters of `s` from `i` on are all equal.
pub open spec fn uniform_run(s: Seq<char>, i: int, len: int) -> bool {
    forall|j: int| i <= j < i + len ==> #[trigger] s[j] == s[i]
}

/// Some character occurs more than `t` times in a row in `s`.
pub open spec fn has_run_longer_than(s: Seq<char>, t: int) -> bool {
    exists|i: int| 0 <= i && i + t < s.len() && #[trigger] uniform_run(s, i, t + 1)
}

proof fn lemma_lead_run_props(s: Seq<char>)
    requires
        s.len() > 0,
    ensures
        forall|j: int| 0 <= j < lead_run(s) ==> #[trigger] s[j] == s[0],
        lead_run(s) < s.len() ==> s[lead_run(s) as int] != s[0],
    decreases s.len(),
{
    lemma_lead_run_bounds(s);
    if s.len() > 1 && s[1] == s[0] {
        let t = s.drop_first();
        lemma_lead_run_props(t);
        assert forall|j: int| 0 <= j < lead_run(s) implies #[trigger] s[j] == s[0] by {
            if j > 0 {
                assert(s[j] == t[j - 1]);
            }
        }
        if lead_run(s) < s.len() {
            assert(s[lead_run(s) as int] == t[lead_run(t) as int]);
        }
    }
}

proof fn lemma_collapse_first(s: Seq<char>, t: int)
    requires
        s.len() > 0,
    ensures
        collapse_char_runs(s, t).len() > 0,
        collapse_char_runs(s, t)[0] == s[0],
{
    lemma_lead_run_bounds(s);
}

/// Collapsing runs never makes text longer.
pub proof fn lemma_collapse_char_runs_shorter(s: Seq<char>, t: int)
    ensures
        collapse_char_runs(s, t).len() <= s.len(),
    decreases s.len(),
{
    if s.len() > 0 {
        lemma_lead_run_bounds(s);
        lemma_collapse_char_runs_shorter(s.skip(lead_run(s) as int), t);
    }
}

/// After runs longer than `t` are collapsed (`t >= 1`), no character occurs more than `t`
/// times in a row.
pub proof fn lemma_collapse_char_runs_bounded(s: Seq<char>, t: int)
    requires
        t >= 1,
    ensures
        !has_run_longer_than(collapse_char_runs(s, t), t),
    decreases s.len(),
{
    if s.len() == 0 {
        return;
    }
    lemma_lead_run_bounds(s);
    lemma_lead_run_props(s);
    let n = lead_run(s) as int;
    let kept = if n > t {
        seq![s[0]]
    } else {
        s.take(n)
    };
    let rest = s.skip(n);
    let c = collapse_char_runs(rest, t);
    let out = collapse_char_runs(s, t);
    assert(out == kept + c);
    lemma_collapse_char_runs_bounded(rest, t);
    if rest.len() > 0 {
        lemma_collapse_first(rest, t);
        assert(rest[0] == s[n]);
    }
    assert forall|i: int| 0 <= i && i + t < out.len() implies !#[trigger] uniform_run(out, i, t + 1) by {
        if i >= kept.len() {
            if uniform_run(out, i, t + 1) {
                let k = i - kept.len();
                assert(uniform_run(c, k, t + 1)) by {
                    assert forall|j: int| k <= j < k + t + 1 implies #[trigger] c[j] == c[k] by {
                        assert(out[j + kept.len()] == c[j]);
                        assert(out[i] == c[k]);
                    }
                }
                assert(has_run_longer_than(c, t));
            }
        } else {
            assert(kept.len() <= t);
            let p = kept.len() as int;
            assert(i <= p < i + t + 1);
            assert(out[p] == c[0]);
            assert(c[0] == s[n]);
            assert(out[i] == kept[i]);
            assert(kept[i] == s[0]);
            assert(s[n] != s[0]);
        }
    }
}

/// Text in which no character occurs more than `t` times in a row is left unchanged by
/// collapsing runs.
pub proof fn lemma_collapse_char_runs_keeps_short_runs(s: Seq<char>, t: int)
    requires
        !has_run_longer_than(s, t),
        t >= 0,
    ensures
        collapse_char_runs(s, t) == s,
    decreases s.len(),
{
    if s.len() == 0 {
        return;
    }
    lemma_lead_run_bounds(s);
    lemma_lead_run_props(s);
    let n = lead_run(s) as int;
    if n > t {
        assert(uniform_run(s, 0, t + 1)) by {
            assert forall|j: int| 0 <= j < 0 + t + 1 implies #[trigger] s[j] == s[0] by {}
        }
        assert(has_run_longer_than(s, t));
    }
    let rest = s.skip(n);
    assert(!has_run_longer_than(rest, t)) by {
        if has_run_longer_than(rest, t) {
            let i = choose|i: int| 0 <= i && i + t < rest.len() && #[trigger] uniform_run(rest, i, t + 1);
            assert(uniform_run(s, i + n, t + 1)) by {
                assert forall|j: int| i + n <= j < i + n + t + 1 implies #[trigger] s[j] == s[i + n] by {
                    assert(s[j] == rest[j - n]);
                    assert(s[i + n] == rest[i]);
                }
            }
        }
    }
    lemma_collapse_char_runs_keeps_short_runs(rest, t);
    assert(s.take(n) + rest =~= s);
}

/// With a threshold below 1 every run is longer than it, so every run collapses, just as
/// with threshold 1 (where a run of one character is kept as it is).
proof fn lemma_collapse_below_one(s: Seq<char>, t: int)
    requires
        t <= 0,
    ensures
        collapse_char_runs(s, t) == collapse_char_runs(s, 1),
    decreases s.len(),
{
    if s.len() > 0 {
        lemma_lead_run_bounds(s);
        lemma_collapse_below_one(s.skip(lead_run(s) as int), t);
        if lead_run(s) == 1 {
            assert(s.take(1) =~= seq![s[0]]);
        }
    }
}

/// Collapsing runs a second time, with the same threshold, changes nothing.
pub proof fn lemma_collapse_char_runs_idempotent(s: Seq<char>, t: int)
    ensures
        collapse_char_runs(collapse_char_runs(s, t), t) == collapse_char_runs(s, t),
{
    if t >= 1 {
        lemma_collapse_char_runs_bounded(s, t);
        lemma_collapse_char_runs_keeps_short_runs(collapse_char_runs(s, t), t);
    } else {
        lemma_collapse_char_runs_bounded(s, 1);
        lemma_collapse_char_runs_keeps_short_runs(collapse_char_runs(s, 1), 1);
        lemma_collapse_below_one(s, t);
        lemma_collapse_below_one(collapse_char_runs(s, 1), t);
    }
}

/// Collapsing repeated patterns never makes text longer.
pub proof fn lemma_collapse_pattern_repeats_shorter(s: Seq<char>, t: int, max_len: int)
    ensures
        collapse_pattern_repeats(s, t, max_len).len() <= s.len(),
    decreases s.len(), s.len() + 1,
{
    if t >= 1 && s.len() >= 2 * t {
        lemma_scan_pattern_repeats_shorter(s, t, max_len, 0);
    }
}

proof fn lemma_scan_pattern_repeats_shorter(s: Seq<char>, t: int, max_len: int, i: int)
    requires
        t >= 1,
        0 <= i <= s.len(),
    ensures
        scan_pattern_repeats(s, t, max_len, i).len() <= s.len() - i,
    decreases s.len(), s.len() - i,
{
    if 0 <= i <= s.len() - 2 * t {
        lemma_first_repeat_len(s, i, t, max_len, 1);
        match first_repeat_len(s, i, t, max_len, 1) {
            Some(k) => {
                lemma_repeat_end(s, i, k, i + k * t);
                let end = repeat_end(s, i, k, i + k * t);
                lemma_collapse_pattern_repeats_shorter(s.skip(end), t, max_len);
            },
            None => {
                lemma_scan_pattern_repeats_shorter(s, t, max_len, i + 1);
            },
        }
    }
}

/// Some pattern of 1 to `max_len` characters is written `t` times in a row somewhere in `s`.
pub open spec fn has_repeated_pattern(s: Seq<char>, t: int, max_len: int) -> bool {
    exists|i: int, k: int| 1 <= k <= max_len && #[trigger] repeated_at(s, i, k, t)
}

proof fn lemma_scan_without_repeats(s: Seq<char>, t: int, max_len: int, i: int)
    requires
        t >= 1,
        0 <= i <= s.len(),
        !has_repeated_pattern(s, t, max_len),
    ensures
        scan_pattern_repeats(s, t, max_len, i) == s.skip(i),
    decreases s.len() - i,
{
    if i <= s.len() - 2 * t {
        lemma_first_repeat_len(s, i, t, max_len, 1);
        if let Some(k) = first_repeat_len(s, i, t, max_len, 1) {
            assert(repeated_at(s, i, k, t));
            assert(has_repeated_pattern(s, t, max_len));
        } else {
            lemma_scan_without_repeats(s, t, max_len, i + 1);
            assert(seq![s[i]] + s.skip(i + 1) =~= s.skip(i));
        }
    }
}

/// Pattern cleanup only removes real repetitions: text in which no pattern of at most
/// `max_len` characters is written `t` times in a row comes back unchanged.
pub proof fn lemma_collapse_pattern_repeats_needs_repeat(s: Seq<char>, t: int, max_len: int)
    requires
        !has_repeated_pattern(s, t, max_len),
    ensures
        collapse_pattern_repeats(s, t, max_len) == s,
{
    if t >= 1 && s.len() >= 2 * t {
        lemma_scan_without_repeats(s, t, max_len, 0);
        assert(s.skip(0) =~= s);
    }
}

proof fn lemma_scan_first_change(s: Seq<char>, t: int, max_len: int, i: int)
    requires
        t >= 1,
        0 <= i <= s.len(),
        scan_pattern_repeats(s, t, max_len, i) != s.skip(i),
    ensures
        exists|p: int, k: int|
            {
                &&& i <= p
                &&& 1 <= k <= max_len
                &&& #[trigger] repeated_at(s, p, k, t)
                &&& p - i + k <= scan_pattern_repeats(s, t, max_len, i).len()
                &&& scan_pattern_repeats(s, t, max_len, i).take(p - i) == s.subrange(i, p)
                &&& scan_pattern_repeats(s, t, max_len, i).subrange(p - i, p - i + k)
                    == s.subrange(p, p + k)
            },
    decreases s.len() - i,
{
    let out = scan_pattern_repeats(s, t, max_len, i);
    if i <= s.len() - 2 * t {
        lemma_first_repeat_len(s, i, t, max_len, 1);
        if let Some(k) = first_repeat_len(s, i, t, max_len, 1) {
            lemma_repeat_end(s, i, k, i + k * t);
            assert(out.take(0) =~= s.subrange(i, i));
            assert(out.subrange(0, k) =~= s.subrange(i, i + k));
            assert(repeated_at(s, i, k, t));
        } else {
            let rest = scan_pattern_repeats(s, t, max_len, i + 1);
            assert(out == seq![s[i]] + rest);
            if rest == s.skip(i + 1) {
                assert(seq![s[i]] + s.skip(i + 1) =~= s.skip(i));
            }
            lemma_scan_first_change(s, t, max_len, i + 1);
            let (p, k) = choose|p: int, k: int|
                {
                    &&& i + 1 <= p
                    &&& 1 <= k <= max_len
                    &&& #[trigger] repeated_at(s, p, k, t)
                    &&& p - (i + 1) + k <= rest.len()
                    &&& rest.take(p - (i + 1)) == s.subrange(i + 1, p)
                    &&& rest.subrange(p - (i + 1), p - (i + 1) + k) == s.subrange(p, p + k)
                };
            assert(out.take(p - i) =~= seq![s[i]] + rest.take(p - (i + 1)));
            assert(seq![s[i]] + s.subrange(i + 1, p) =~= s.subrange(i, p));
            assert(out.subrange(p - i, p - i + k) =~= rest.subrange(p - (i + 1), p - (i + 1) + k));
            assert(repeated_at(s, p, k, t));
        }
    }
}

/// Where pattern cleanup changes text, it does so at a real repetition: the output agrees
/// with the input up to a position `p` where a pattern of `k <= max_len` characters is
/// written `t` times in a row, and there the output keeps one copy of that pattern.
pub proof fn lemma_collapse_pattern_repeats_first_change(s: Seq<char>, t: int, max_len: int)
    requires
        collapse_pattern_repeats(s, t, max_len) != s,
    ensures
        exists|p: int, k: int|
            {
                &&& 0 <= p
                &&& 1 <= k <= max_len
                &&& #[trigger] repeated_at(s, p, k, t)
                &&& p + k <= collapse_pattern_repeats(s, t, max_len).len()
                &&& collapse_pattern_repeats(s, t, max_len).take(p) == s.take(p)
                &&& collapse_pattern_repeats(s, t, max_len).subrange(p, p + k) == s.subrange(
                    p,
                    p + k,
                )
            },
{
    assert(s.skip(0) =~= s);
    lemma_scan_first_change(s, t, max_len, 0);
    let (p, k) = choose|p: int, k: int|
        {
            &&& 0 <= p
            &&& 1 <= k <= max_len
            &&& #[trigger] repeated_at(s, p, k, t)
            &&& p - 0 + k <= scan_pattern_repeats(s, t, max_len, 0).len()
            &&& scan_pattern_repeats(s, t, max_len, 0).take(p - 0) == s.subrange(0, p)
            &&& scan_pattern_repeats(s, t, max_len, 0).subrange(p - 0, p - 0 + k) == s.subrange(
                p,
                p + k,
            )
        };
    assert(s.subrange(0, p) =~= s.take(p));
    assert(repeated_at(s, p, k, t));
}

/// Cleaning leaves text alone when it holds nothing to clean: no character more than
/// `threshold` times in a row and no pattern of at most 20 characters written `threshold`
/// times in a row.
pub proof fn lemma_post_text_process_keeps_clean_text(text: Seq<char>, threshold: int)
    requires
        threshold >= 0,
        !has_run_longer_than(text, threshold),
        !has_repeated_pattern(text, threshold, 20),
    ensures
        collapse_pattern_repeats(collapse_char_runs(text, threshold), threshold, 20) == text,
{
    lemma_collapse_char_runs_keeps_short_runs(text, threshold);
    lemma_collapse_pattern_repeats_needs_repeat(text, threshold, 20);
}

/// Cleaning recognised text never makes it longer.
pub proof fn lemma_post_text_process_shorter(text: Seq<char>, threshold: int)
    ensures
        collapse_pattern_repeats(collapse_char_runs(text, threshold), threshold, 20).len()
            <= text.len(),
{
    lemma_collapse_char_runs_shorter(text, threshold);
    lemma_collapse_pattern_repeats_shorter(collapse_char_runs(text, threshold), threshold, 20);
}

} // verus!
