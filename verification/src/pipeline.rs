use vstd::prelude::*;

use crate::chars::{append_chars, append_str, chars_of, decimal, decimal_chars, string_from_chars};
use crate::language::{join_seqs, majority_language, occurrences, strings_view};
use crate::paths::{path_with_extension, path_with_extension_of};

verus! {

/// The file name of chunk `idx` of an input whose file stem is `stem`:
/// `<stem>_<idx>.wav`.
pub fn chunk_file_name(stem: &str, idx: usize) -> (r: String)
    ensures
        r@ == stem@ + "_"@ + decimal(idx as nat) + ".wav"@,
{
    let mut out = chars_of(stem);
    append_str(&mut out, "_");
    let digits = decimal_chars(idx as u64);
    append_chars(&mut out, digits.as_slice());
    append_str(&mut out, ".wav");
    string_from_chars(out.as_slice())
}

/// Chunk results seen as pairs of a chunk number and the text's characters.
pub open spec fn numbered_view(results: Seq<(usize, String)>) -> Seq<(usize, Seq<char>)> {
    results.map_values(|p: (usize, String)| (p.0, p.1@))
}

/// `s` with `x` put before the first element whose chunk number is greater than `x`'s,
/// so after every element whose number is not greater.
pub open spec fn insert_by_number(s: Seq<(usize, Seq<char>)>, x: (usize, Seq<char>)) -> Seq<
    (usize, Seq<char>),
>
    decreases s.len(),
{
    if s.len() == 0 {
        seq![x]
    } else if s[0].0 > x.0 {
        seq![x] + s
    } else {
        seq![s[0]] + insert_by_number(s.drop_first(), x)
    }
}

/// `s` sorted by chunk number, results with the same number kept in their order in `s`
/// (a stable sort).
pub open spec fn sort_by_number(s: Seq<(usize, Seq<char>)>) -> Seq<(usize, Seq<char>)>
    decreases s.len(),
{
    if s.len() == 0 {
        s
    } else {
        insert_by_number(sort_by_number(s.drop_last()), s.last())
    }
}

/// The chunk numbers of `s` never decrease.
pub open spec fn sorted_by_number(s: Seq<(usize, Seq<char>)>) -> bool {
    forall|i: int, j: int| 0 <= i <= j < s.len() ==> #[trigger] s[i].0 <= #[trigger] s[j].0
}

/// Inserting `x` at `p`, after the leading elements whose numbers are not greater than
/// `x`'s and before one whose number is greater, is what `insert_by_number` does.
proof fn lemma_insert_at(s: Seq<(usize, Seq<char>)>, x: (usize, Seq<char>), p: int)
    requires
        0 <= p <= s.len(),
        forall|k: int| 0 <= k < p ==> #[trigger] s[k].0 <= x.0,
        p < s.len() ==> s[p].0 > x.0,
    ensures
        insert_by_number(s, x) == s.insert(p, x),
    decreases p,
{
    if p == 0 {
        if s.len() == 0 {
            assert(seq![x] =~= s.insert(0, x));
        } else {
            assert(seq![x] + s =~= s.insert(0, x));
        }
    } else {
        assert(s[0].0 <= x.0);
        let t = s.drop_first();
        assert forall|k: int| 0 <= k < p - 1 implies #[trigger] t[k].0 <= x.0 by {
            assert(t[k] == s[k + 1]);
        }
        lemma_insert_at(t, x, p - 1);
        assert(seq![s[0]] + t.insert(p - 1, x) =~= s.insert(p, x));
    }
}

/// Where `insert_by_number` puts `x` in `s`: a position before which no number is greater
/// than `x`'s and at which, if anywhere, one is.
proof fn lemma_insert_position(s: Seq<(usize, Seq<char>)>, x: (usize, Seq<char>)) -> (p: int)
    ensures
        0 <= p <= s.len(),
        forall|k: int| 0 <= k < p ==> #[trigger] s[k].0 <= x.0,
        p < s.len() ==> s[p].0 > x.0,
        insert_by_number(s, x) == s.insert(p, x),
    decreases s.len(),
{
    if s.len() == 0 || s[0].0 > x.0 {
        lemma_insert_at(s, x, 0);
        0
    } else {
        let t = s.drop_first();
        let q = lemma_insert_position(t, x);
        assert forall|k: int| 0 <= k < q + 1 implies #[trigger] s[k].0 <= x.0 by {
            if k > 0 {
                assert(s[k] == t[k - 1]);
            }
        }
        lemma_insert_at(s, x, q + 1);
        q + 1
    }
}

/// Putting chunk results in chunk order sorts them by number.
pub proof fn lemma_sort_by_number_sorted(s: Seq<(usize, Seq<char>)>)
    ensures
        sorted_by_number(sort_by_number(s)),
    decreases s.len(),
{
    if s.len() > 0 {
        let t = sort_by_number(s.drop_last());
        lemma_sort_by_number_sorted(s.drop_last());
        let x = s.last();
        let p = lemma_insert_position(t, x);
        let u = t.insert(p, x);
        assert forall|i: int, j: int| 0 <= i <= j < u.len() implies #[trigger] u[i].0
            <= #[trigger] u[j].0 by {
            if i < p && j < p {
                assert(u[i] == t[i] && u[j] == t[j]);
            } else if i < p && j == p {
                assert(u[i] == t[i]);
            } else if i < p {
                assert(u[i] == t[i] && u[j] == t[j - 1]);
            } else if i == p && j > p {
                assert(u[j] == t[j - 1]);
                assert(t[p].0 <= t[j - 1].0);
            } else if i > p {
                assert(u[i] == t[i - 1] && u[j] == t[j - 1]);
            }
        }
    }
}

/// Putting chunk results in chunk order keeps every result, each as often as it came:
/// the sorted sequence is a permutation of the results.
pub proof fn lemma_sort_by_number_permutes(s: Seq<(usize, Seq<char>)>)
    ensures
        sort_by_number(s).to_multiset() == s.to_multiset(),
    decreases s.len(),
{
    broadcast use vstd::seq_lib::group_to_multiset_ensures;

    if s.len() > 0 {
        let t = sort_by_number(s.drop_last());
        lemma_sort_by_number_permutes(s.drop_last());
        let x = s.last();
        let p = lemma_insert_position(t, x);
        let u = t.insert(p, x);
        assert(u.remove(p) =~= t);
        assert(u[p] == x);
        assert(u.to_multiset().count(x) > 0) by {
            assert(u.contains(x));
        }
        assert(u.to_multiset() =~= t.to_multiset().insert(x));
        assert(s.drop_last().push(x) =~= s);
    }
}

/// The results of all chunks, which arrive in any order, put in chunk order: sorted by
/// chunk number, results with the same number kept in the order they came.
pub fn order_by_index(results: &Vec<(usize, String)>) -> (r: Vec<(usize, String)>)
    ensures
        numbered_view(r@) == sort_by_number(numbered_view(results@)),
{
    let ghost v = numbered_view(results@);
    let mut out: Vec<(usize, String)> = Vec::new();
    let mut i: usize = 0;
    while i < results.len()
        invariant
            i <= results@.len(),
            v == numbered_view(results@),
            numbered_view(out@) == sort_by_number(v.take(i as int)),
        decreases results@.len() - i,
    {
        let number = results[i].0;
        let text = results[i].1.clone();
        let mut pos: usize = 0;
        while pos < out.len() && out[pos].0 <= number
            invariant
                pos <= out@.len(),
                forall|k: int| 0 <= k < pos ==> #[trigger] out@[k].0 <= number,
            decreases out@.len() - pos,
        {
            pos = pos + 1;
        }
        let ghost before = numbered_view(out@);
        let ghost x = (number, text@);
        proof {
            assert forall|k: int| 0 <= k < pos implies #[trigger] before[k].0 <= x.0 by {
                assert(before[k].0 == out@[k].0);
            }
            if pos < out@.len() {
                assert(before[pos as int].0 == out@[pos as int].0);
            }
            lemma_insert_at(before, x, pos as int);
            assert(v.take(i + 1).drop_last() =~= v.take(i as int));
            assert(v.take(i + 1).last() == x);
        }
        out.insert(pos, (number, text));
        assert(numbered_view(out@) =~= before.insert(pos as int, x));
        i = i + 1;
    }
    assert(v.take(results@.len() as int) =~= v);
    out
}

/// The full transcript: the chunk texts, in order, separated by single spaces.
pub fn join_transcripts(results: &Vec<(usize, String)>) -> (r: String)
    ensures
        r@ == join_seqs(results@.map_values(|p: (usize, String)| p.1@), " "@),
{
    let ghost texts = results@.map_values(|p: (usize, String)| p.1@);
    let mut out: Vec<char> = Vec::new();
    let mut i: usize = 0;
    while i < results.len()
        invariant
            i <= results@.len(),
            texts == results@.map_values(|p: (usize, String)| p.1@),
            out@ == join_seqs(texts.take(i as int), " "@),
        decreases results@.len() - i,
    {
        if i > 0 {
            append_str(&mut out, " ");
        }
        append_str(&mut out, results[i].1.as_str());
        assert(texts.take(i + 1).drop_last() =~= texts.take(i as int));
        i = i + 1;
    }
    assert(texts.take(results@.len() as int) =~= texts);
    string_from_chars(out.as_slice())
}

/// The language reported for the whole input: the one detected for most chunks, or
/// "Not Supported" when no chunk reported one.
pub fn detected_language(languages: &[String]) -> (r: String)
    ensures
        languages@.len() == 0 ==> r@ == "Not Supported"@,
        languages@.len() > 0 ==> {
            &&& strings_view(languages@).contains(r@)
            &&& forall|i: int|
                0 <= i < languages@.len() ==> occurrences(
                    strings_view(languages@),
                    #[trigger] languages@[i]@,
                ) <= occurrences(strings_view(languages@), r@)
        },
{
    match majority_language(languages) {
        Some(l) => l,
        None => "Not Supported".to_owned(),
    }
}

/// The content of the transcript file: the language on the first line, the text on the
/// second.
pub fn transcript_file_content(language: &str, full_text: &str) -> (r: String)
    ensures
        r@ == language@ + seq!['\n'] + full_text@ + seq!['\n'],
{
    let mut out = chars_of(language);
    out.push('\n');
    append_str(&mut out, full_text);
    out.push('\n');
    string_from_chars(out.as_slice())
}

/// The subtitle file next to the transcript file: the same path with the extension `srt`.
pub fn srt_file_path(text_file: &str) -> (r: String)
    ensures
        r@ == path_with_extension_of(text_file@, "srt"@),
{
    proof {
        reveal_strlit("srt");
    }
    path_with_extension(text_file, "srt")
}

} // verus!
