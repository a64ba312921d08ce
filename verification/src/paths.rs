use vstd::prelude::*;

use crate::chars::{append_str, chars_of, starts_with_chars, string_from_chars};

verus! {

/// What std's `Path::file_name` gives for a path: its last component, if that is a name.
pub uninterp spec fn path_file_name_of(path: Seq<char>) -> Option<Seq<char>>;

/// What std's `Path::file_stem` gives for a path: its file name without the extension.
pub uninterp spec fn path_file_stem_of(path: Seq<char>) -> Option<Seq<char>>;

/// What std's `Path::extension` gives for a path: the part of its file name after the
/// last `.`.
pub uninterp spec fn path_extension_of(path: Seq<char>) -> Option<Seq<char>>;

/// What std's `Path::with_extension` gives: the path with its extension set to `ext`.
pub uninterp spec fn path_with_extension_of(path: Seq<char>, ext: Seq<char>) -> Seq<char>;

/// What std's `Path::join` gives: `child` appended to `base` as a path component.
pub uninterp spec fn path_join_of(base: Seq<char>, child: Seq<char>) -> Seq<char>;

/// What the `url` crate gives for a string: the path of the URL it parses to, or nothing
/// when it does not parse.
pub uninterp spec fn url_path_of(input: Seq<char>) -> Option<Seq<char>>;

/// Declares `url::ParseError`, the error of `url::Url::parse`, which is carried through
/// unopened.
#[verifier::external_type_specification]
#[verifier::external_body]
pub struct ExUrlParseError(url::ParseError);

/// Calls std's `Path::file_name` on `path`; the name, taken from a `&str`, is valid UTF-8,
/// so the lossy conversion keeps it exactly.
#[verifier::external_body]
pub(crate) fn path_file_name(path: &str) -> (r: Option<String>)
    ensures
        match r {
            Some(n) => path_file_name_of(path@) == Some(n@),
            None => path_file_name_of(path@) is None,
        },
{
    std::path::Path::new(path).file_name().map(|n| n.to_string_lossy().into_owned())
}

/// Calls std's `Path::file_stem` on `path`.
#[verifier::external_body]
pub(crate) fn path_file_stem(path: &str) -> (r: Option<String>)
    ensures
        match r {
            Some(n) => path_file_stem_of(path@) == Some(n@),
            None => path_file_stem_of(path@) is None,
        },
{
    std::path::Path::new(path).file_stem().map(|n| n.to_string_lossy().into_owned())
}

/// Calls std's `Path::extension` on `path`.
#[verifier::external_body]
pub(crate) fn path_extension(path: &str) -> (r: Option<String>)
    ensures
        match r {
            Some(n) => path_extension_of(path@) == Some(n@),
            None => path_extension_of(path@) is None,
        },
{
    std::path::Path::new(path).extension().map(|n| n.to_string_lossy().into_owned())
}

/// An extension that holds no path separator, which `Path::with_extension` accepts
/// without panicking.
pub open spec fn extension_ok(ext: Seq<char>) -> bool {
    forall|i: int| 0 <= i < ext.len() ==> ext[i] != '/' && ext[i] != '\\'
}

/// Calls std's `Path::with_extension` on `path`; std panics on an extension that holds a
/// path separator, so such an extension is ruled out.
#[verifier::external_body]
pub(crate) fn path_with_extension(path: &str, ext: &str) -> (r: String)
    requires
        extension_ok(ext@),
    ensures
        r@ == path_with_extension_of(path@, ext@),
{
    std::path::Path::new(path).with_extension(ext).to_string_lossy().into_owned()
}

/// Calls std's `Path::join` on `base` and `child`.
#[verifier::external_body]
pub(crate) fn path_join(base: &str, child: &str) -> (r: String)
    ensures
        r@ == path_join_of(base@, child@),
{
    std::path::Path::new(base).join(child).to_string_lossy().into_owned()
}

/// Parses `input` with `url::Url::parse` and hands back the URL's path
/// (`Url::path`), or the parse error.
#[verifier::external_body]
fn url_path(input: &str) -> (r: Result<String, url::ParseError>)
    ensures
        match r {
            Ok(p) => url_path_of(input@) == Some(p@),
            Err(_) => url_path_of(input@) is None,
        },
{
    match url::Url::parse(input) {
        Ok(u) => Ok(u.path().to_owned()),
        Err(e) => Err(e),
    }
}

/// Whether the input names a remote resource (`http://` or `https://`).
pub open spec fn is_remote(input: Seq<char>) -> bool {
    ||| (input.len() >= 7 && input.take(7) == "http://"@)
    ||| (input.len() >= 8 && input.take(8) == "https://"@)
}

pub fn is_remote_input(input: &str) -> (r: bool)
    ensures
        r == is_remote(input@),
{
    let chars = chars_of(input);
    let http = chars_of("http://");
    let https = chars_of("https://");
    proof {
        reveal_strlit("http://");
        reveal_strlit("https://");
    }
    starts_with_chars(chars.as_slice(), http.as_slice()) || starts_with_chars(
        chars.as_slice(),
        https.as_slice(),
    )
}

/// The directory for an input's chunk files: the stem of the input's file name under
/// `tmp_dir` ("remote_audio" standing in for a missing name, "audio" for a missing stem).
pub open spec fn chunk_dir_of(tmp_dir: Seq<char>, input: Seq<char>) -> Seq<char> {
    let name = match path_file_name_of(input) {
        Some(n) => n,
        None => "remote_audio"@,
    };
    let stem = match path_file_stem_of(name) {
        Some(s) => s,
        None => "audio"@,
    };
    path_join_of(tmp_dir, stem)
}

/// Where the chunk files of `input` are kept.
pub fn output_chunk_dir(tmp_dir: &str, input: &str) -> (r: String)
    ensures
        r@ == chunk_dir_of(tmp_dir@, input@),
{
    let wav_name = match path_file_name(input) {
        Some(n) => n,
        None => "remote_audio".to_owned(),
    };
    let wav_dir_name = match path_file_stem(wav_name.as_str()) {
        Some(s) => s,
        None => "audio".to_owned(),
    };
    path_join(tmp_dir, wav_dir_name.as_str())
}

/// `s` without the `c` characters at its start.
pub open spec fn strip_start(s: Seq<char>, c: char) -> Seq<char>
    decreases s.len(),
{
    if s.len() > 0 && s[0] == c {
        strip_start(s.drop_first(), c)
    } else {
        s
    }
}

/// `s` without the `c` characters at its end.
pub open spec fn strip_end(s: Seq<char>, c: char) -> Seq<char>
    decreases s.len(),
{
    if s.len() > 0 && s.last() == c {
        strip_end(s.drop_last(), c)
    } else {
        s
    }
}

/// `s` without `c` at either end (what `str::trim_matches(c)` gives).
pub open spec fn strip_both(s: Seq<char>, c: char) -> Seq<char> {
    strip_end(strip_start(s, c), c)
}

fn trim_matches_char(s: &[char], c: char) -> (r: Vec<char>)
    ensures
        r@ == strip_both(s@, c),
{
    let len = s.len();
    let mut a: usize = 0;
    assert(s@.skip(0) =~= s@);
    while a < len && s[a] == c
        invariant
            a <= len,
            len == s@.len(),
            strip_start(s@, c) == strip_start(s@.skip(a as int), c),
        decreases len - a,
    {
        assert(s@.skip(a as int).drop_first() =~= s@.skip(a + 1));
        a = a + 1;
    }
    assert(strip_start(s@.skip(a as int), c) == s@.skip(a as int));
    let mut b: usize = len;
    assert(s@.skip(a as int) =~= s@.subrange(a as int, b as int));
    while b > a && s[b - 1] == c
        invariant
            a <= b <= len,
            len == s@.len(),
            strip_both(s@, c) == strip_end(s@.subrange(a as int, b as int), c),
        decreases b,
    {
        assert(s@.subrange(a as int, b as int).drop_last() =~= s@.subrange(a as int, b - 1));
        b = b - 1;
    }
    let mut r: Vec<char> = Vec::new();
    let mut j = a;
    while j < b
        invariant
            a <= j <= b,
            b <= len,
            len == s@.len(),
            r@ == s@.subrange(a as int, j as int),
        decreases b - j,
    {
        r.push(s[j]);
        j = j + 1;
        assert(r@ =~= s@.subrange(a as int, j as int));
    }
    r
}

/// The input is a remote URL that does not parse.
#[derive(Debug)]
pub enum OutputPathError {
    InvalidUrl(url::ParseError),
}

/// The transcript file name for a URL whose path is `url_path`: the file stem of the path
/// without its surrounding `/`, or "audio" when that is missing or empty, with `.txt`.
pub open spec fn url_text_file_of(url_path: Seq<char>) -> Seq<char> {
    let stem = match path_file_stem_of(strip_both(url_path, '/')) {
        Some(s) if s.len() > 0 => s,
        _ => "audio"@,
    };
    stem + ".txt"@
}

/// The transcript file for an input: for a local file the same path with the extension
/// `txt`; for a URL the name `url_text_file_of` gives for the URL's path, in the working
/// directory.
pub open spec fn text_file_of(input: Seq<char>) -> Option<Seq<char>> {
    if !is_remote(input) {
        Some(path_with_extension_of(input, "txt"@))
    } else {
        match url_path_of(input) {
            None => None,
            Some(p) => Some(url_text_file_of(p)),
        }
    }
}

/// The transcript file name for a URL whose path is `url_path`.
pub fn text_file_for_url_path(url_path: &str) -> (r: String)
    ensures
        r@ == url_text_file_of(url_path@),
{
    let path_chars = chars_of(url_path);
    let trimmed = trim_matches_char(path_chars.as_slice(), '/');
    let trimmed_text = string_from_chars(trimmed.as_slice());
    let filename = match path_file_stem(trimmed_text.as_str()) {
        Some(s) if !s.as_str().is_empty() => s,
        _ => "audio".to_owned(),
    };
    let mut out = chars_of(filename.as_str());
    append_str(&mut out, ".txt");
    string_from_chars(out.as_slice())
}

/// Where the transcript of `input` is written.
pub fn output_text_file(input: &str) -> (r: Result<String, OutputPathError>)
    ensures
        match r {
            Ok(p) => text_file_of(input@) == Some(p@),
            Err(_) => text_file_of(input@) is None,
        },
{
    if !is_remote_input(input) {
        proof {
            reveal_strlit("txt");
        }
        return Ok(path_with_extension(input, "txt"));
    }
    let url_path = match url_path(input) {
        Ok(p) => p,
        Err(e) => {
            return Err(OutputPathError::InvalidUrl(e));
        },
    };
    Ok(text_file_for_url_path(url_path.as_str()))
}

/// The file name of an input: the last component of a URL's path ("remote_audio.wav"
/// when there is none or the URL does not parse), or of a local path ("audio.wav" when
/// there is none).
pub open spec fn input_file_name_of(input: Seq<char>) -> Seq<char> {
    if is_remote(input) {
        match url_path_of(input) {
            Some(p) if path_file_name_of(p) is Some => path_file_name_of(p)->0,
            _ => "remote_audio.wav"@,
        }
    } else {
        match path_file_name_of(input) {
            Some(n) => n,
            None => "audio.wav"@,
        }
    }
}

/// The file name of an input.
pub fn input_file_name(input: &str) -> (r: String)
    ensures
        r@ == input_file_name_of(input@),
{
    if is_remote_input(input) {
        if let Ok(p) = url_path(input) {
            if let Some(name) = path_file_name(p.as_str()) {
                return name;
            }
        }
        return "remote_audio.wav".to_owned();
    }
    match path_file_name(input) {
        Some(n) => n,
        None => "audio.wav".to_owned(),
    }
}

/// The stem of a file name ("audio" when it has none), used to name chunk files.
pub fn file_stem_or_audio(file_name: &str) -> (r: String)
    ensures
        r@ == match path_file_stem_of(file_name@) {
            Some(s) => s,
            None => "audio"@,
        },
{
    match path_file_stem(file_name) {
        Some(s) => s,
        None => "audio".to_owned(),
    }
}

} // verus!
