use vstd::prelude::*;

use crate::chars::{
    append_chars, append_str, ascii_lowercase, chars_equal, chars_of, replace_char, replace_chars,
    string_from_chars, trim, trim_chars,
};

verus! {

/// The language codes that the recognition service reports, with the name of each
/// language.
pub open spec fn language_code_table() -> Seq<(Seq<char>, Seq<char>)> {
    seq![
        ("ar"@, "Arabic"@),
        ("cs"@, "Czech"@),
        ("da"@, "Danish"@),
        ("de"@, "German"@),
        ("en"@, "English"@),
        ("es"@, "Spanish"@),
        ("fi"@, "Finnish"@),
        ("fil"@, "Filipino"@),
        ("fr"@, "French"@),
        ("hi"@, "Hindi"@),
        ("id"@, "Indonesian"@),
        ("is"@, "Icelandic"@),
        ("it"@, "Italian"@),
        ("ja"@, "Japanese"@),
        ("ko"@, "Korean"@),
        ("ms"@, "Malay"@),
        ("no"@, "Norwegian"@),
        ("pl"@, "Polish"@),
        ("pt"@, "Portuguese"@),
        ("ru"@, "Russian"@),
        ("sv"@, "Swedish"@),
        ("th"@, "Thai"@),
        ("tr"@, "Turkish"@),
        ("uk"@, "Ukrainian"@),
        ("vi"@, "Vietnamese"@),
        ("yue"@, "Cantonese"@),
        ("zh"@, "Chinese"@),
    ]
}

/// Names and spellings of languages that users may give, with the code each one stands
/// for.
pub open spec fn language_alias_table() -> Seq<(Seq<char>, Seq<char>)> {
    seq![
        ("ar"@, "ar"@),
        ("arabic"@, "ar"@),
        ("cs"@, "cs"@),
        ("czech"@, "cs"@),
        ("da"@, "da"@),
        ("danish"@, "da"@),
        ("de"@, "de"@),
        ("german"@, "de"@),
        ("en"@, "en"@),
        ("eng"@, "en"@),
        ("english"@, "en"@),
        ("es"@, "es"@),
        ("spanish"@, "es"@),
        ("fi"@, "fi"@),
        ("finnish"@, "fi"@),
        ("fil"@, "fil"@),
        ("filipino"@, "fil"@),
        ("fr"@, "fr"@),
        ("french"@, "fr"@),
        ("hi"@, "hi"@),
        ("hindi"@, "hi"@),
        ("id"@, "id"@),
        ("indonesian"@, "id"@),
        ("is"@, "is"@),
        ("icelandic"@, "is"@),
        ("it"@, "it"@),
        ("italian"@, "it"@),
        ("ja"@, "ja"@),
        ("japanese"@, "ja"@),
        ("ko"@, "ko"@),
        ("korean"@, "ko"@),
        ("ms"@, "ms"@),
        ("malay"@, "ms"@),
        ("no"@, "no"@),
        ("norwegian"@, "no"@),
        ("pl"@, "pl"@),
        ("polish"@, "pl"@),
        ("pt"@, "pt"@),
        ("portuguese"@, "pt"@),
        ("ru"@, "ru"@),
        ("russian"@, "ru"@),
        ("sv"@, "sv"@),
        ("swedish"@, "sv"@),
        ("th"@, "th"@),
        ("thai"@, "th"@),
        ("tr"@, "tr"@),
        ("turkish"@, "tr"@),
        ("uk"@, "uk"@),
        ("ukrainian"@, "uk"@),
        ("vi"@, "vi"@),
        ("vietnamese"@, "vi"@),
        ("yue"@, "yue"@),
        ("cantonese"@, "yue"@),
        ("zh"@, "zh"@),
        ("cn"@, "zh"@),
        ("zh-cn"@, "zh"@),
        ("mandarin"@, "zh"@),
        ("putonghua"@, "zh"@),
        ("chinese"@, "zh"@),
        ("中文"@, "zh"@),
        ("汉语"@, "zh"@),
        ("普通话"@, "zh"@),
        ("粤语"@, "yue"@),
        ("英文"@, "en"@),
        ("英语"@, "en"@),
        ("日语"@, "ja"@),
        ("德语"@, "de"@),
        ("韩语"@, "ko"@),
        ("俄语"@, "ru"@),
        ("法语"@, "fr"@),
        ("葡萄牙语"@, "pt"@),
        ("阿拉伯语"@, "ar"@),
        ("意大利语"@, "it"@),
        ("西班牙语"@, "es"@),
        ("印地语"@, "hi"@),
        ("印尼语"@, "id"@),
        ("泰语"@, "th"@),
        ("土耳其语"@, "tr"@),
        ("乌克兰语"@, "uk"@),
        ("越南语"@, "vi"@),
        ("捷克语"@, "cs"@),
        ("丹麦语"@, "da"@),
        ("菲律宾语"@, "fil"@),
        ("芬兰语"@, "fi"@),
        ("冰岛语"@, "is"@),
        ("马来语"@, "ms"@),
        ("挪威语"@, "no"@),
        ("波兰语"@, "pl"@),
        ("瑞典语"@, "sv"@),
    ]
}

/// A table of string pairs, seen as pairs of character sequences.
pub open spec fn table_view(entries: Seq<(&str, &str)>) -> Seq<(Seq<char>, Seq<char>)> {
    entries.map_values(|p: (&str, &str)| (p.0@, p.1@))
}

/// The value paired with the first occurrence of `key` in `table`.
pub open spec fn table_lookup(table: Seq<(Seq<char>, Seq<char>)>, key: Seq<char>) -> Option<
    Seq<char>,
>
    decreases table.len(),
{
    if table.len() == 0 {
        None
    } else if table[0].0 == key {
        Some(table[0].1)
    } else {
        table_lookup(table.drop_first(), key)
    }
}

fn language_code_entries() -> (r: Vec<(&'static str, &'static str)>)
    ensures
        table_view(r@) == language_code_table(),
{
    let r = vec![
        ("ar", "Arabic"),
        ("cs", "Czech"),
        ("da", "Danish"),
        ("de", "German"),
        ("en", "English"),
        ("es", "Spanish"),
        ("fi", "Finnish"),
        ("fil", "Filipino"),
        ("fr", "French"),
        ("hi", "Hindi"),
        ("id", "Indonesian"),
        ("is", "Icelandic"),
        ("it", "Italian"),
        ("ja", "Japanese"),
        ("ko", "Korean"),
        ("ms", "Malay"),
        ("no", "Norwegian"),
        ("pl", "Polish"),
        ("pt", "Portuguese"),
        ("ru", "Russian"),
        ("sv", "Swedish"),
        ("th", "Thai"),
        ("tr", "Turkish"),
        ("uk", "Ukrainian"),
        ("vi", "Vietnamese"),
        ("yue", "Cantonese"),
        ("zh", "Chinese"),
    ];
    assert(table_view(r@) =~= language_code_table());
    r
}

fn language_alias_entries() -> (r: Vec<(&'static str, &'static str)>)
    ensures
        table_view(r@) == language_alias_table(),
{
    let r = vec![
        ("ar", "ar"),
        ("arabic", "ar"),
        ("cs", "cs"),
        ("czech", "cs"),
        ("da", "da"),
        ("danish", "da"),
        ("de", "de"),
        ("german", "de"),
        ("en", "en"),
        ("eng", "en"),
        ("english", "en"),
        ("es", "es"),
        ("spanish", "es"),
        ("fi", "fi"),
        ("finnish", "fi"),
        ("fil", "fil"),
        ("filipino", "fil"),
        ("fr", "fr"),
        ("french", "fr"),
        ("hi", "hi"),
        ("hindi", "hi"),
        ("id", "id"),
        ("indonesian", "id"),
        ("is", "is"),
        ("icelandic", "is"),
        ("it", "it"),
        ("italian", "it"),
        ("ja", "ja"),
        ("japanese", "ja"),
        ("ko", "ko"),
        ("korean", "ko"),
        ("ms", "ms"),
        ("malay", "ms"),
        ("no", "no"),
        ("norwegian", "no"),
        ("pl", "pl"),
        ("polish", "pl"),
        ("pt", "pt"),
        ("portuguese", "pt"),
        ("ru", "ru"),
        ("russian", "ru"),
        ("sv", "sv"),
        ("swedish", "sv"),
        ("th", "th"),
        ("thai", "th"),
        ("tr", "tr"),
        ("turkish", "tr"),
        ("uk", "uk"),
        ("ukrainian", "uk"),
        ("vi", "vi"),
        ("vietnamese", "vi"),
        ("yue", "yue"),
        ("cantonese", "yue"),
        ("zh", "zh"),
        ("cn", "zh"),
        ("zh-cn", "zh"),
        ("mandarin", "zh"),
        ("putonghua", "zh"),
        ("chinese", "zh"),
        ("中文", "zh"),
        ("汉语", "zh"),
        ("普通话", "zh"),
        ("粤语", "yue"),
        ("英文", "en"),
        ("英语", "en"),
        ("日语", "ja"),
        ("德语", "de"),
        ("韩语", "ko"),
        ("俄语", "ru"),
        ("法语", "fr"),
        ("葡萄牙语", "pt"),
        ("阿拉伯语", "ar"),
        ("意大利语", "it"),
        ("西班牙语", "es"),
        ("印地语", "hi"),
        ("印尼语", "id"),
        ("泰语", "th"),
        ("土耳其语", "tr"),
        ("乌克兰语", "uk"),
        ("越南语", "vi"),
        ("捷克语", "cs"),
        ("丹麦语", "da"),
        ("菲律宾语", "fil"),
        ("芬兰语", "fi"),
        ("冰岛语", "is"),
        ("马来语", "ms"),
        ("挪威语", "no"),
        ("波兰语", "pl"),
        ("瑞典语", "sv"),
    ];
    assert(table_view(r@) =~= language_alias_table());
    r
}

/// Finds `key` in a table of string pairs.
fn lookup(entries: &Vec<(&'static str, &'static str)>, key: &[char]) -> (r: Option<&'static str>)
    ensures
        match r {
            Some(v) => table_lookup(table_view(entries@), key@) == Some(v@),
            None => table_lookup(table_view(entries@), key@) is None,
        },
{
    let ghost full = table_view(entries@);
    let mut i: usize = 0;
    assert(full.skip(0) =~= full);
    while i < entries.len()
        invariant
            i <= entries@.len(),
            full == table_view(entries@),
            table_lookup(full, key@) == table_lookup(full.skip(i as int), key@),
        decreases entries@.len() - i,
    {
        let (k, v) = entries[i];
        let kc = chars_of(k);
        assert(full.skip(i as int)[0] == (k@, v@));
        if chars_equal(kc.as_slice(), key) {
            return Some(v);
        }
        assert(full.skip(i as int).drop_first() =~= full.skip(i + 1));
        i = i + 1;
    }
    None
}


/// What std's `str::to_lowercase` returns for a string: its full Unicode lowercase mapping.
pub uninterp spec fn unicode_lowercase(s: Seq<char>) -> Seq<char>;

/// Text made only of the ASCII letters `a` to `z` and `-`.
pub open spec fn lower_code_text(s: Seq<char>) -> bool {
    forall|i: int| 0 <= i < s.len() ==> is_ascii_lower(#[trigger] s[i]) || s[i] == '-'
}

/// Calls std's `str::to_lowercase`; its result is named `unicode_lowercase` of the input.
/// std lowercases character by character, and an ASCII lowercase letter or `-` is its own
/// lowercase, so text made only of those comes back unchanged.
#[verifier::external_body]
fn str_to_lowercase(s: &str) -> (r: String)
    ensures
        r@ == unicode_lowercase(s@),
        lower_code_text(s@) ==> r@ == s@,
{
    s.to_lowercase()
}

/// Whether `c` is one of the ASCII letters `a` to `z`.
pub open spec fn is_ascii_lower(c: char) -> bool {
    'a' <= c && c <= 'z'
}

/// Two or three ASCII lowercase letters.
pub open spec fn lower_word(w: Seq<char>) -> bool {
    &&& 2 <= w.len() <= 3
    &&& forall|i: int| 0 <= i < w.len() ==> is_ascii_lower(#[trigger] w[i])
}

/// The shape of a language code: two or three lowercase letters, optionally followed by
/// `-` and two or three more (the pattern `^[a-z]{2,3}(?:-[a-z]{2,3})?$`).
pub open spec fn language_code_shape(s: Seq<char>) -> bool {
    ||| lower_word(s)
    ||| exists|p: int|
        0 <= p < s.len() && #[trigger] s[p] == '-' && lower_word(s.take(p)) && lower_word(
            s.skip(p + 1),
        )
}

/// Tests `haystack` against a regular expression with the `regex` crate
/// (`Regex::new(pattern)` then `Regex::is_match`). The one pattern it is called with
/// anchors both ends, so a match means the whole haystack has the language-code shape.
#[verifier::external_body]
fn regex_is_match(pattern: &str, haystack: &str) -> (r: bool)
    requires
        pattern@ == "^[a-z]{2,3}(?:-[a-z]{2,3})?$"@,
    ensures
        r == language_code_shape(haystack@),
{
    match regex::Regex::new(pattern) {
        Ok(re) => re.is_match(haystack),
        Err(_) => false,
    }
}

/// A language the tool cannot pass to the recognition service.
#[derive(Debug)]
pub enum LanguageError {
    /// The user's spelling, which is neither a known alias nor shaped like a code.
    Unsupported { language: String },
}

/// The elements of `list` joined by `sep`.
pub open spec fn join_seqs(list: Seq<Seq<char>>, sep: Seq<char>) -> Seq<char>
    decreases list.len(),
{
    if list.len() == 0 {
        Seq::empty()
    } else if list.len() == 1 {
        list[0]
    } else {
        join_seqs(list.drop_last(), sep) + sep + list.last()
    }
}

/// The language codes of the service, in table order, joined by ", ".
pub open spec fn supported_codes_text() -> Seq<char> {
    join_seqs(language_code_table().map_values(|p: (Seq<char>, Seq<char>)| p.0), ", "@)
}

impl LanguageError {
    /// The error's text.
    pub fn message(&self) -> (r: String)
        ensures
            match self {
                LanguageError::Unsupported { language } => r@ == "Unsupported language '"@
                    + language@ + "'. Use one of the API language codes: "@
                    + supported_codes_text() + "."@,
            },
    {
        match self {
            LanguageError::Unsupported { language } => {
                let mut out = chars_of("Unsupported language '");
                append_str(&mut out, language.as_str());
                append_str(&mut out, "'. Use one of the API language codes: ");
                let codes = supported_codes();
                append_chars(&mut out, codes.as_slice());
                append_str(&mut out, ".");
                string_from_chars(out.as_slice())
            },
        }
    }
}

/// The supported language codes joined by ", ".
fn supported_codes() -> (r: Vec<char>)
    ensures
        r@ == supported_codes_text(),
{
    let entries = language_code_entries();
    let ghost keys = language_code_table().map_values(|p: (Seq<char>, Seq<char>)| p.0);
    let mut out: Vec<char> = Vec::new();
    let mut i: usize = 0;
    while i < entries.len()
        invariant
            i <= entries@.len(),
            table_view(entries@) == language_code_table(),
            keys == language_code_table().map_values(|p: (Seq<char>, Seq<char>)| p.0),
            out@ == join_seqs(keys.take(i as int), ", "@),
        decreases entries@.len() - i,
    {
        let ghost before = out@;
        assert(keys[i as int] == entries@[i as int].0@);
        if i > 0 {
            append_str(&mut out, ", ");
        }
        append_str(&mut out, entries[i].0);
        assert(keys.take(i + 1).drop_last() =~= keys.take(i as int));
        i = i + 1;
    }
    assert(keys.take(entries@.len() as int) =~= keys);
    out
}

/// The code that a trimmed and lowercased language stands for: `_` is read as `-`; then
/// nothing when it is blank, the code of a known alias, the text itself when it is shaped
/// like a code, and an error otherwise.
pub open spec fn code_from_lowered(lowered: Seq<char>) -> Result<Option<Seq<char>>, ()> {
    let n = replace_char(lowered, '_', '-');
    if n.len() == 0 {
        Ok(None)
    } else {
        match table_lookup(language_alias_table(), n) {
            Some(code) => Ok(Some(code)),
            None => if language_code_shape(n) {
                Ok(Some(n))
            } else {
                Err(())
            },
        }
    }
}

/// The code a user's language stands for: the language trimmed and lowercased, then read
/// as `code_from_lowered` reads it.
pub open spec fn normalized_code(language: Seq<char>) -> Result<Option<Seq<char>>, ()> {
    code_from_lowered(unicode_lowercase(trim(language)))
}

/// Reads a language that is already trimmed and lowercased (`lowered`) as a code of the
/// recognition service; `language` is the user's own spelling, which an error carries.
pub fn code_for_lowered(lowered: &str, language: &str) -> (r: Result<Option<String>, LanguageError>)
    ensures
        match (r, code_from_lowered(lowered@)) {
            (Ok(None), Ok(None)) => true,
            (Ok(Some(c)), Ok(Some(code))) => c@ == code,
            (Err(LanguageError::Unsupported { language: e }), Err(())) => e@ == language@,
            _ => false,
        },
{
    let lowered_chars = chars_of(lowered);
    let normalized = replace_chars(lowered_chars.as_slice(), '_', '-');
    if normalized.len() == 0 {
        return Ok(None);
    }
    let aliases = language_alias_entries();
    if let Some(mapped) = lookup(&aliases, normalized.as_slice()) {
        return Ok(Some(mapped.to_owned()));
    }
    let normalized_text = string_from_chars(normalized.as_slice());
    if regex_is_match("^[a-z]{2,3}(?:-[a-z]{2,3})?$", normalized_text.as_str()) {
        return Ok(Some(normalized_text));
    }
    Err(LanguageError::Unsupported { language: language.to_owned() })
}

/// Normalizes a language given by the user into a code of the recognition service.
pub fn normalize_language_code(language: Option<&str>) -> (r: Result<Option<String>, LanguageError>)
    ensures
        language is None ==> r matches Ok(None),
        language matches Some(l) ==> match (r, normalized_code(l@)) {
            (Ok(None), Ok(None)) => true,
            (Ok(Some(c)), Ok(Some(code))) => c@ == code,
            (Err(LanguageError::Unsupported { language: e }), Err(())) => e@ == l@,
            _ => false,
        },
        language matches Some(l) ==> (lower_code_text(trim(l@)) ==> unicode_lowercase(trim(l@))
            == trim(l@)),
{
    let language = match language {
        None => {
            return Ok(None);
        },
        Some(l) => l,
    };
    let raw = chars_of(language);
    let trimmed = trim_chars(raw.as_slice());
    let trimmed_text = string_from_chars(trimmed.as_slice());
    let lowered = str_to_lowercase(trimmed_text.as_str());
    code_for_lowered(lowered.as_str(), language)
}

/// The codes that the alias table maps to: two or three ASCII lowercase letters, and
/// neither of the two short spellings ("eng", "cn") that stand for another code.
pub open spec fn alias_value_ok(v: Seq<char>) -> bool {
    &&& lower_word(v)
    &&& v != "eng"@
    &&& v != "cn"@
}

/// Entry `j` of an alias table maps to a code that is itself a key of the table, and its
/// key, unless it is that code, is not shaped like one.
pub open spec fn alias_entry_ok(t: Seq<(Seq<char>, Seq<char>)>, j: int) -> bool {
    &&& alias_value_ok(t[j].1)
    &&& exists|w: int| 0 <= w < t.len() && #[trigger] t[w].0 == t[j].1
    &&& (t[j].0 == t[j].1 || !lower_word(t[j].0) || t[j].0 == "eng"@ || t[j].0 == "cn"@)
}

/// Every entry of the alias table is as `alias_entry_ok` says.
proof fn lemma_alias_table_ok()
    ensures
        forall|j: int|
            0 <= j < language_alias_table().len() ==> alias_entry_ok(language_alias_table(), j),
{
    let t = language_alias_table();
    assert(t.len() == 89);
    reveal_strlit("eng");
    assert(("eng"@).len() == 3 && ("eng"@)[0] == 'e' && ("eng"@)[1] == 'n' && ("eng"@)[2] == 'g');
    reveal_strlit("cn");
    assert(("cn"@).len() == 2 && ("cn"@)[0] == 'c' && ("cn"@)[1] == 'n');
    assert(alias_entry_ok(t, 0)) by {
        reveal_strlit("ar");
        assert(("ar"@).len() == 2 && ("ar"@)[0] == 'a' && ("ar"@)[1] == 'r');
        assert(t[0].0 == t[0].1);
    }
    assert(alias_entry_ok(t, 1)) by {
        reveal_strlit("arabic");
        assert(("arabic"@).len() == 6);
        reveal_strlit("ar");
        assert(("ar"@).len() == 2 && ("ar"@)[0] == 'a' && ("ar"@)[1] == 'r');
        assert(t[0].0 == t[1].1);
    }
    assert(alias_entry_ok(t, 2)) by {
        reveal_strlit("cs");
        assert(("cs"@).len() == 2 && ("cs"@)[0] == 'c' && ("cs"@)[1] == 's');
        assert(t[2].0 == t[2].1);
    }
    assert(alias_entry_ok(t, 3)) by {
        reveal_strlit("czech");
        assert(("czech"@).len() == 5);
        reveal_strlit("cs");
        assert(("cs"@).len() == 2 && ("cs"@)[0] == 'c' && ("cs"@)[1] == 's');
        assert(t[2].0 == t[3].1);
    }
    assert(alias_entry_ok(t, 4)) by {
        reveal_strlit("da");
        assert(("da"@).len() == 2 && ("da"@)[0] == 'd' && ("da"@)[1] == 'a');
        assert(t[4].0 == t[4].1);
    }
    assert(alias_entry_ok(t, 5)) by {
        reveal_strlit("danish");
        assert(("danish"@).len() == 6);
        reveal_strlit("da");
        assert(("da"@).len() == 2 && ("da"@)[0] == 'd' && ("da"@)[1] == 'a');
        assert(t[4].0 == t[5].1);
    }
    assert(alias_entry_ok(t, 6)) by {
        reveal_strlit("de");
        assert(("de"@).len() == 2 && ("de"@)[0] == 'd' && ("de"@)[1] == 'e');
        assert(t[6].0 == t[6].1);
    }
    assert(alias_entry_ok(t, 7)) by {
        reveal_strlit("german");
        assert(("german"@).len() == 6);
        reveal_strlit("de");
        assert(("de"@).len() == 2 && ("de"@)[0] == 'd' && ("de"@)[1] == 'e');
        assert(t[6].0 == t[7].1);
    }
    assert(alias_entry_ok(t, 8)) by {
        reveal_strlit("en");
        assert(("en"@).len() == 2 && ("en"@)[0] == 'e' && ("en"@)[1] == 'n');
        assert(t[8].0 == t[8].1);
    }
    assert(alias_entry_ok(t, 9)) by {
        reveal_strlit("eng");
        assert(("eng"@).len() == 3);
        reveal_strlit("en");
        assert(("en"@).len() == 2 && ("en"@)[0] == 'e' && ("en"@)[1] == 'n');
        assert(t[8].0 == t[9].1);
    }
    assert(alias_entry_ok(t, 10)) by {
        reveal_strlit("english");
        assert(("english"@).len() == 7);
        reveal_strlit("en");
        assert(("en"@).len() == 2 && ("en"@)[0] == 'e' && ("en"@)[1] == 'n');
        assert(t[8].0 == t[10].1);
    }
    assert(alias_entry_ok(t, 11)) by {
        reveal_strlit("es");
        assert(("es"@).len() == 2 && ("es"@)[0] == 'e' && ("es"@)[1] == 's');
        assert(t[11].0 == t[11].1);
    }
    assert(alias_entry_ok(t, 12)) by {
        reveal_strlit("spanish");
        assert(("spanish"@).len() == 7);
        reveal_strlit("es");
        assert(("es"@).len() == 2 && ("es"@)[0] == 'e' && ("es"@)[1] == 's');
        assert(t[11].0 == t[12].1);
    }
    assert(alias_entry_ok(t, 13)) by {
        reveal_strlit("fi");
        assert(("fi"@).len() == 2 && ("fi"@)[0] == 'f' && ("fi"@)[1] == 'i');
        assert(t[13].0 == t[13].1);
    }
    assert(alias_entry_ok(t, 14)) by {
        reveal_strlit("finnish");
        assert(("finnish"@).len() == 7);
        reveal_strlit("fi");
        assert(("fi"@).len() == 2 && ("fi"@)[0] == 'f' && ("fi"@)[1] == 'i');
        assert(t[13].0 == t[14].1);
    }
    assert(alias_entry_ok(t, 15)) by {
        reveal_strlit("fil");
        assert(("fil"@).len() == 3 && ("fil"@)[0] == 'f' && ("fil"@)[1] == 'i' && ("fil"@)[2] == 'l');
        assert(t[15].0 == t[15].1);
    }
    assert(alias_entry_ok(t, 16)) by {
        reveal_strlit("filipino");
        assert(("filipino"@).len() == 8);
        reveal_strlit("fil");
        assert(("fil"@).len() == 3 && ("fil"@)[0] == 'f' && ("fil"@)[1] == 'i' && ("fil"@)[2] == 'l');
        assert(t[15].0 == t[16].1);
    }
    assert(alias_entry_ok(t, 17)) by {
        reveal_strlit("fr");
        assert(("fr"@).len() == 2 && ("fr"@)[0] == 'f' && ("fr"@)[1] == 'r');
        assert(t[17].0 == t[17].1);
    }
    assert(alias_entry_ok(t, 18)) by {
        reveal_strlit("french");
        assert(("french"@).len() == 6);
        reveal_strlit("fr");
        assert(("fr"@).len() == 2 && ("fr"@)[0] == 'f' && ("fr"@)[1] == 'r');
        assert(t[17].0 == t[18].1);
    }
    assert(alias_entry_ok(t, 19)) by {
        reveal_strlit("hi");
        assert(("hi"@).len() == 2 && ("hi"@)[0] == 'h' && ("hi"@)[1] == 'i');
        assert(t[19].0 == t[19].1);
    }
    assert(alias_entry_ok(t, 20)) by {
        reveal_strlit("hindi");
        assert(("hindi"@).len() == 5);
        reveal_strlit("hi");
        assert(("hi"@).len() == 2 && ("hi"@)[0] == 'h' && ("hi"@)[1] == 'i');
        assert(t[19].0 == t[20].1);
    }
    assert(alias_entry_ok(t, 21)) by {
        reveal_strlit("id");
        assert(("id"@).len() == 2 && ("id"@)[0] == 'i' && ("id"@)[1] == 'd');
        assert(t[21].0 == t[21].1);
    }
    assert(alias_entry_ok(t, 22)) by {
        reveal_strlit("indonesian");
        assert(("indonesian"@).len() == 10);
        reveal_strlit("id");
        assert(("id"@).len() == 2 && ("id"@)[0] == 'i' && ("id"@)[1] == 'd');
        assert(t[21].0 == t[22].1);
    }
    assert(alias_entry_ok(t, 23)) by {
        reveal_strlit("is");
        assert(("is"@).len() == 2 && ("is"@)[0] == 'i' && ("is"@)[1] == 's');
        assert(t[23].0 == t[23].1);
    }
    assert(alias_entry_ok(t, 24)) by {
        reveal_strlit("icelandic");
        assert(("icelandic"@).len() == 9);
        reveal_strlit("is");
        assert(("is"@).len() == 2 && ("is"@)[0] == 'i' && ("is"@)[1] == 's');
        assert(t[23].0 == t[24].1);
    }
    assert(alias_entry_ok(t, 25)) by {
        reveal_strlit("it");
        assert(("it"@).len() == 2 && ("it"@)[0] == 'i' && ("it"@)[1] == 't');
        assert(t[25].0 == t[25].1);
    }
    assert(alias_entry_ok(t, 26)) by {
        reveal_strlit("italian");
        assert(("italian"@).len() == 7);
        reveal_strlit("it");
        assert(("it"@).len() == 2 && ("it"@)[0] == 'i' && ("it"@)[1] == 't');
        assert(t[25].0 == t[26].1);
    }
    assert(alias_entry_ok(t, 27)) by {
        reveal_strlit("ja");
        assert(("ja"@).len() == 2 && ("ja"@)[0] == 'j' && ("ja"@)[1] == 'a');
        assert(t[27].0 == t[27].1);
    }
    assert(alias_entry_ok(t, 28)) by {
        reveal_strlit("japanese");
        assert(("japanese"@).len() == 8);
        reveal_strlit("ja");
        assert(("ja"@).len() == 2 && ("ja"@)[0] == 'j' && ("ja"@)[1] == 'a');
        assert(t[27].0 == t[28].1);
    }
    assert(alias_entry_ok(t, 29)) by {
        reveal_strlit("ko");
        assert(("ko"@).len() == 2 && ("ko"@)[0] == 'k' && ("ko"@)[1] == 'o');
        assert(t[29].0 == t[29].1);
    }
    assert(alias_entry_ok(t, 30)) by {
        reveal_strlit("korean");
        assert(("korean"@).len() == 6);
        reveal_strlit("ko");
        assert(("ko"@).len() == 2 && ("ko"@)[0] == 'k' && ("ko"@)[1] == 'o');
        assert(t[29].0 == t[30].1);
    }
    assert(alias_entry_ok(t, 31)) by {
        reveal_strlit("ms");
        assert(("ms"@).len() == 2 && ("ms"@)[0] == 'm' && ("ms"@)[1] == 's');
        assert(t[31].0 == t[31].1);
    }
    assert(alias_entry_ok(t, 32)) by {
        reveal_strlit("malay");
        assert(("malay"@).len() == 5);
        reveal_strlit("ms");
        assert(("ms"@).len() == 2 && ("ms"@)[0] == 'm' && ("ms"@)[1] == 's');
        assert(t[31].0 == t[32].1);
    }
    assert(alias_entry_ok(t, 33)) by {
        reveal_strlit("no");
        assert(("no"@).len() == 2 && ("no"@)[0] == 'n' && ("no"@)[1] == 'o');
        assert(t[33].0 == t[33].1);
    }
    assert(alias_entry_ok(t, 34)) by {
        reveal_strlit("norwegian");
        assert(("norwegian"@).len() == 9);
        reveal_strlit("no");
        assert(("no"@).len() == 2 && ("no"@)[0] == 'n' && ("no"@)[1] == 'o');
        assert(t[33].0 == t[34].1);
    }
    assert(alias_entry_ok(t, 35)) by {
        reveal_strlit("pl");
        assert(("pl"@).len() == 2 && ("pl"@)[0] == 'p' && ("pl"@)[1] == 'l');
        assert(t[35].0 == t[35].1);
    }
    assert(alias_entry_ok(t, 36)) by {
        reveal_strlit("polish");
        assert(("polish"@).len() == 6);
        reveal_strlit("pl");
        assert(("pl"@).len() == 2 && ("pl"@)[0] == 'p' && ("pl"@)[1] == 'l');
        assert(t[35].0 == t[36].1);
    }
    assert(alias_entry_ok(t, 37)) by {
        reveal_strlit("pt");
        assert(("pt"@).len() == 2 && ("pt"@)[0] == 'p' && ("pt"@)[1] == 't');
        assert(t[37].0 == t[37].1);
    }
    assert(alias_entry_ok(t, 38)) by {
        reveal_strlit("portuguese");
        assert(("portuguese"@).len() == 10);
        reveal_strlit("pt");
        assert(("pt"@).len() == 2 && ("pt"@)[0] == 'p' && ("pt"@)[1] == 't');
        assert(t[37].0 == t[38].1);
    }
    assert(alias_entry_ok(t, 39)) by {
        reveal_strlit("ru");
        assert(("ru"@).len() == 2 && ("ru"@)[0] == 'r' && ("ru"@)[1] == 'u');
        assert(t[39].0 == t[39].1);
    }
    assert(alias_entry_ok(t, 40)) by {
        reveal_strlit("russian");
        assert(("russian"@).len() == 7);
        reveal_strlit("ru");
        assert(("ru"@).len() == 2 && ("ru"@)[0] == 'r' && ("ru"@)[1] == 'u');
        assert(t[39].0 == t[40].1);
    }
    assert(alias_entry_ok(t, 41)) by {
        reveal_strlit("sv");
        assert(("sv"@).len() == 2 && ("sv"@)[0] == 's' && ("sv"@)[1] == 'v');
        assert(t[41].0 == t[41].1);
    }
    assert(alias_entry_ok(t, 42)) by {
        reveal_strlit("swedish");
        assert(("swedish"@).len() == 7);
        reveal_strlit("sv");
        assert(("sv"@).len() == 2 && ("sv"@)[0] == 's' && ("sv"@)[1] == 'v');
        assert(t[41].0 == t[42].1);
    }
    assert(alias_entry_ok(t, 43)) by {
        reveal_strlit("th");
        assert(("th"@).len() == 2 && ("th"@)[0] == 't' && ("th"@)[1] == 'h');
        assert(t[43].0 == t[43].1);
    }
    assert(alias_entry_ok(t, 44)) by {
        reveal_strlit("thai");
        assert(("thai"@).len() == 4);
        reveal_strlit("th");
        assert(("th"@).len() == 2 && ("th"@)[0] == 't' && ("th"@)[1] == 'h');
        assert(t[43].0 == t[44].1);
    }
    assert(alias_entry_ok(t, 45)) by {
        reveal_strlit("tr");
        assert(("tr"@).len() == 2 && ("tr"@)[0] == 't' && ("tr"@)[1] == 'r');
        assert(t[45].0 == t[45].1);
    }
    assert(alias_entry_ok(t, 46)) by {
        reveal_strlit("turkish");
        assert(("turkish"@).len() == 7);
        reveal_strlit("tr");
        assert(("tr"@).len() == 2 && ("tr"@)[0] == 't' && ("tr"@)[1] == 'r');
        assert(t[45].0 == t[46].1);
    }
    assert(alias_entry_ok(t, 47)) by {
        reveal_strlit("uk");
        assert(("uk"@).len() == 2 && ("uk"@)[0] == 'u' && ("uk"@)[1] == 'k');
        assert(t[47].0 == t[47].1);
    }
    assert(alias_entry_ok(t, 48)) by {
        reveal_strlit("ukrainian");
        assert(("ukrainian"@).len() == 9);
        reveal_strlit("uk");
        assert(("uk"@).len() == 2 && ("uk"@)[0] == 'u' && ("uk"@)[1] == 'k');
        assert(t[47].0 == t[48].1);
    }
    assert(alias_entry_ok(t, 49)) by {
        reveal_strlit("vi");
        assert(("vi"@).len() == 2 && ("vi"@)[0] == 'v' && ("vi"@)[1] == 'i');
        assert(t[49].0 == t[49].1);
    }
    assert(alias_entry_ok(t, 50)) by {
        reveal_strlit("vietnamese");
        assert(("vietnamese"@).len() == 10);
        reveal_strlit("vi");
        assert(("vi"@).len() == 2 && ("vi"@)[0] == 'v' && ("vi"@)[1] == 'i');
        assert(t[49].0 == t[50].1);
    }
    assert(alias_entry_ok(t, 51)) by {
        reveal_strlit("yue");
        assert(("yue"@).len() == 3 && ("yue"@)[0] == 'y' && ("yue"@)[1] == 'u' && ("yue"@)[2] == 'e');
        assert(t[51].0 == t[51].1);
    }
    assert(alias_entry_ok(t, 52)) by {
        reveal_strlit("cantonese");
        assert(("cantonese"@).len() == 9);
        reveal_strlit("yue");
        assert(("yue"@).len() == 3 && ("yue"@)[0] == 'y' && ("yue"@)[1] == 'u' && ("yue"@)[2] == 'e');
        assert(t[51].0 == t[52].1);
    }
    assert(alias_entry_ok(t, 53)) by {
        reveal_strlit("zh");
        assert(("zh"@).len() == 2 && ("zh"@)[0] == 'z' && ("zh"@)[1] == 'h');
        assert(t[53].0 == t[53].1);
    }
    assert(alias_entry_ok(t, 54)) by {
        reveal_strlit("cn");
        assert(("cn"@).len() == 2);
        reveal_strlit("zh");
        assert(("zh"@).len() == 2 && ("zh"@)[0] == 'z' && ("zh"@)[1] == 'h');
        assert(t[53].0 == t[54].1);
    }
    assert(alias_entry_ok(t, 55)) by {
        reveal_strlit("zh-cn");
        assert(("zh-cn"@).len() == 5);
        reveal_strlit("zh");
        assert(("zh"@).len() == 2 && ("zh"@)[0] == 'z' && ("zh"@)[1] == 'h');
        assert(t[53].0 == t[55].1);
    }
    assert(alias_entry_ok(t, 56)) by {
        reveal_strlit("mandarin");
        assert(("mandarin"@).len() == 8);
        reveal_strlit("zh");
        assert(("zh"@).len() == 2 && ("zh"@)[0] == 'z' && ("zh"@)[1] == 'h');
        assert(t[53].0 == t[56].1);
    }
    assert(alias_entry_ok(t, 57)) by {
        reveal_strlit("putonghua");
        assert(("putonghua"@).len() == 9);
        reveal_strlit("zh");
        assert(("zh"@).len() == 2 && ("zh"@)[0] == 'z' && ("zh"@)[1] == 'h');
        assert(t[53].0 == t[57].1);
    }
    assert(alias_entry_ok(t, 58)) by {
        reveal_strlit("chinese");
        assert(("chinese"@).len() == 7);
        reveal_strlit("zh");
        assert(("zh"@).len() == 2 && ("zh"@)[0] == 'z' && ("zh"@)[1] == 'h');
        assert(t[53].0 == t[58].1);
    }
    assert(alias_entry_ok(t, 59)) by {
        reveal_strlit("中文");
        assert(!is_ascii_lower(("中文"@)[0]));
        reveal_strlit("zh");
        assert(("zh"@).len() == 2 && ("zh"@)[0] == 'z' && ("zh"@)[1] == 'h');
        assert(t[53].0 == t[59].1);
    }
    assert(alias_entry_ok(t, 60)) by {
        reveal_strlit("汉语");
        assert(!is_ascii_lower(("汉语"@)[0]));
        reveal_strlit("zh");
        assert(("zh"@).len() == 2 && ("zh"@)[0] == 'z' && ("zh"@)[1] == 'h');
        assert(t[53].0 == t[60].1);
    }
    assert(alias_entry_ok(t, 61)) by {
        reveal_strlit("普通话");
        assert(!is_ascii_lower(("普通话"@)[0]));
        reveal_strlit("zh");
        assert(("zh"@).len() == 2 && ("zh"@)[0] == 'z' && ("zh"@)[1] == 'h');
        assert(t[53].0 == t[61].1);
    }
    assert(alias_entry_ok(t, 62)) by {
        reveal_strlit("粤语");
        assert(!is_ascii_lower(("粤语"@)[0]));
        reveal_strlit("yue");
        assert(("yue"@).len() == 3 && ("yue"@)[0] == 'y' && ("yue"@)[1] == 'u' && ("yue"@)[2] == 'e');
        assert(t[51].0 == t[62].1);
    }
    assert(alias_entry_ok(t, 63)) by {
        reveal_strlit("英文");
        assert(!is_ascii_lower(("英文"@)[0]));
        reveal_strlit("en");
        assert(("en"@).len() == 2 && ("en"@)[0] == 'e' && ("en"@)[1] == 'n');
        assert(t[8].0 == t[63].1);
    }
    assert(alias_entry_ok(t, 64)) by {
        reveal_strlit("英语");
        assert(!is_ascii_lower(("英语"@)[0]));
        reveal_strlit("en");
        assert(("en"@).len() == 2 && ("en"@)[0] == 'e' && ("en"@)[1] == 'n');
        assert(t[8].0 == t[64].1);
    }
    assert(alias_entry_ok(t, 65)) by {
        reveal_strlit("日语");
        assert(!is_ascii_lower(("日语"@)[0]));
        reveal_strlit("ja");
        assert(("ja"@).len() == 2 && ("ja"@)[0] == 'j' && ("ja"@)[1] == 'a');
        assert(t[27].0 == t[65].1);
    }
    assert(alias_entry_ok(t, 66)) by {
        reveal_strlit("德语");
        assert(!is_ascii_lower(("德语"@)[0]));
        reveal_strlit("de");
        assert(("de"@).len() == 2 && ("de"@)[0] == 'd' && ("de"@)[1] == 'e');
        assert(t[6].0 == t[66].1);
    }
    assert(alias_entry_ok(t, 67)) by {
        reveal_strlit("韩语");
        assert(!is_ascii_lower(("韩语"@)[0]));
        reveal_strlit("ko");
        assert(("ko"@).len() == 2 && ("ko"@)[0] == 'k' && ("ko"@)[1] == 'o');
        assert(t[29].0 == t[67].1);
    }
    assert(alias_entry_ok(t, 68)) by {
        reveal_strlit("俄语");
        assert(!is_ascii_lower(("俄语"@)[0]));
        reveal_strlit("ru");
        assert(("ru"@).len() == 2 && ("ru"@)[0] == 'r' && ("ru"@)[1] == 'u');
        assert(t[39].0 == t[68].1);
    }
    assert(alias_entry_ok(t, 69)) by {
        reveal_strlit("法语");
        assert(!is_ascii_lower(("法语"@)[0]));
        reveal_strlit("fr");
        assert(("fr"@).len() == 2 && ("fr"@)[0] == 'f' && ("fr"@)[1] == 'r');
        assert(t[17].0 == t[69].1);
    }
    assert(alias_entry_ok(t, 70)) by {
        reveal_strlit("葡萄牙语");
        assert(!is_ascii_lower(("葡萄牙语"@)[0]));
        reveal_strlit("pt");
        assert(("pt"@).len() == 2 && ("pt"@)[0] == 'p' && ("pt"@)[1] == 't');
        assert(t[37].0 == t[70].1);
    }
    assert(alias_entry_ok(t, 71)) by {
        reveal_strlit("阿拉伯语");
        assert(!is_ascii_lower(("阿拉伯语"@)[0]));
        reveal_strlit("ar");
        assert(("ar"@).len() == 2 && ("ar"@)[0] == 'a' && ("ar"@)[1] == 'r');
        assert(t[0].0 == t[71].1);
    }
    assert(alias_entry_ok(t, 72)) by {
        reveal_strlit("意大利语");
        assert(!is_ascii_lower(("意大利语"@)[0]));
        reveal_strlit("it");
        assert(("it"@).len() == 2 && ("it"@)[0] == 'i' && ("it"@)[1] == 't');
        assert(t[25].0 == t[72].1);
    }
    assert(alias_entry_ok(t, 73)) by {
        reveal_strlit("西班牙语");
        assert(!is_ascii_lower(("西班牙语"@)[0]));
        reveal_strlit("es");
        assert(("es"@).len() == 2 && ("es"@)[0] == 'e' && ("es"@)[1] == 's');
        assert(t[11].0 == t[73].1);
    }
    assert(alias_entry_ok(t, 74)) by {
        reveal_strlit("印地语");
        assert(!is_ascii_lower(("印地语"@)[0]));
        reveal_strlit("hi");
        assert(("hi"@).len() == 2 && ("hi"@)[0] == 'h' && ("hi"@)[1] == 'i');
        assert(t[19].0 == t[74].1);
    }
    assert(alias_entry_ok(t, 75)) by {
        reveal_strlit("印尼语");
        assert(!is_ascii_lower(("印尼语"@)[0]));
        reveal_strlit("id");
        assert(("id"@).len() == 2 && ("id"@)[0] == 'i' && ("id"@)[1] == 'd');
        assert(t[21].0 == t[75].1);
    }
    assert(alias_entry_ok(t, 76)) by {
        reveal_strlit("泰语");
        assert(!is_ascii_lower(("泰语"@)[0]));
        reveal_strlit("th");
        assert(("th"@).len() == 2 && ("th"@)[0] == 't' && ("th"@)[1] == 'h');
        assert(t[43].0 == t[76].1);
    }
    assert(alias_entry_ok(t, 77)) by {
        reveal_strlit("土耳其语");
        assert(!is_ascii_lower(("土耳其语"@)[0]));
        reveal_strlit("tr");
        assert(("tr"@).len() == 2 && ("tr"@)[0] == 't' && ("tr"@)[1] == 'r');
        assert(t[45].0 == t[77].1);
    }
    assert(alias_entry_ok(t, 78)) by {
        reveal_strlit("乌克兰语");
        assert(!is_ascii_lower(("乌克兰语"@)[0]));
        reveal_strlit("uk");
        assert(("uk"@).len() == 2 && ("uk"@)[0] == 'u' && ("uk"@)[1] == 'k');
        assert(t[47].0 == t[78].1);
    }
    assert(alias_entry_ok(t, 79)) by {
        reveal_strlit("越南语");
        assert(!is_ascii_lower(("越南语"@)[0]));
        reveal_strlit("vi");
        assert(("vi"@).len() == 2 && ("vi"@)[0] == 'v' && ("vi"@)[1] == 'i');
        assert(t[49].0 == t[79].1);
    }
    assert(alias_entry_ok(t, 80)) by {
        reveal_strlit("捷克语");
        assert(!is_ascii_lower(("捷克语"@)[0]));
        reveal_strlit("cs");
        assert(("cs"@).len() == 2 && ("cs"@)[0] == 'c' && ("cs"@)[1] == 's');
        assert(t[2].0 == t[80].1);
    }
    assert(alias_entry_ok(t, 81)) by {
        reveal_strlit("丹麦语");
        assert(!is_ascii_lower(("丹麦语"@)[0]));
        reveal_strlit("da");
        assert(("da"@).len() == 2 && ("da"@)[0] == 'd' && ("da"@)[1] == 'a');
        assert(t[4].0 == t[81].1);
    }
    assert(alias_entry_ok(t, 82)) by {
        reveal_strlit("菲律宾语");
        assert(!is_ascii_lower(("菲律宾语"@)[0]));
        reveal_strlit("fil");
        assert(("fil"@).len() == 3 && ("fil"@)[0] == 'f' && ("fil"@)[1] == 'i' && ("fil"@)[2] == 'l');
        assert(t[15].0 == t[82].1);
    }
    assert(alias_entry_ok(t, 83)) by {
        reveal_strlit("芬兰语");
        assert(!is_ascii_lower(("芬兰语"@)[0]));
        reveal_strlit("fi");
        assert(("fi"@).len() == 2 && ("fi"@)[0] == 'f' && ("fi"@)[1] == 'i');
        assert(t[13].0 == t[83].1);
    }
    assert(alias_entry_ok(t, 84)) by {
        reveal_strlit("冰岛语");
        assert(!is_ascii_lower(("冰岛语"@)[0]));
        reveal_strlit("is");
        assert(("is"@).len() == 2 && ("is"@)[0] == 'i' && ("is"@)[1] == 's');
        assert(t[23].0 == t[84].1);
    }
    assert(alias_entry_ok(t, 85)) by {
        reveal_strlit("马来语");
        assert(!is_ascii_lower(("马来语"@)[0]));
        reveal_strlit("ms");
        assert(("ms"@).len() == 2 && ("ms"@)[0] == 'm' && ("ms"@)[1] == 's');
        assert(t[31].0 == t[85].1);
    }
    assert(alias_entry_ok(t, 86)) by {
        reveal_strlit("挪威语");
        assert(!is_ascii_lower(("挪威语"@)[0]));
        reveal_strlit("no");
        assert(("no"@).len() == 2 && ("no"@)[0] == 'n' && ("no"@)[1] == 'o');
        assert(t[33].0 == t[86].1);
    }
    assert(alias_entry_ok(t, 87)) by {
        reveal_strlit("波兰语");
        assert(!is_ascii_lower(("波兰语"@)[0]));
        reveal_strlit("pl");
        assert(("pl"@).len() == 2 && ("pl"@)[0] == 'p' && ("pl"@)[1] == 'l');
        assert(t[35].0 == t[87].1);
    }
    assert(alias_entry_ok(t, 88)) by {
        reveal_strlit("瑞典语");
        assert(!is_ascii_lower(("瑞典语"@)[0]));
        reveal_strlit("sv");
        assert(("sv"@).len() == 2 && ("sv"@)[0] == 's' && ("sv"@)[1] == 'v');
        assert(t[41].0 == t[88].1);
    }
    assert forall|j: int| 0 <= j < t.len() implies alias_entry_ok(t, j) by {
        if j == 0 {
        } else if j == 1 {
        } else if j == 2 {
        } else if j == 3 {
        } else if j == 4 {
        } else if j == 5 {
        } else if j == 6 {
        } else if j == 7 {
        } else if j == 8 {
        } else if j == 9 {
        } else if j == 10 {
        } else if j == 11 {
        } else if j == 12 {
        } else if j == 13 {
        } else if j == 14 {
        } else if j == 15 {
        } else if j == 16 {
        } else if j == 17 {
        } else if j == 18 {
        } else if j == 19 {
        } else if j == 20 {
        } else if j == 21 {
        } else if j == 22 {
        } else if j == 23 {
        } else if j == 24 {
        } else if j == 25 {
        } else if j == 26 {
        } else if j == 27 {
        } else if j == 28 {
        } else if j == 29 {
        } else if j == 30 {
        } else if j == 31 {
        } else if j == 32 {
        } else if j == 33 {
        } else if j == 34 {
        } else if j == 35 {
        } else if j == 36 {
        } else if j == 37 {
        } else if j == 38 {
        } else if j == 39 {
        } else if j == 40 {
        } else if j == 41 {
        } else if j == 42 {
        } else if j == 43 {
        } else if j == 44 {
        } else if j == 45 {
        } else if j == 46 {
        } else if j == 47 {
        } else if j == 48 {
        } else if j == 49 {
        } else if j == 50 {
        } else if j == 51 {
        } else if j == 52 {
        } else if j == 53 {
        } else if j == 54 {
        } else if j == 55 {
        } else if j == 56 {
        } else if j == 57 {
        } else if j == 58 {
        } else if j == 59 {
        } else if j == 60 {
        } else if j == 61 {
        } else if j == 62 {
        } else if j == 63 {
        } else if j == 64 {
        } else if j == 65 {
        } else if j == 66 {
        } else if j == 67 {
        } else if j == 68 {
        } else if j == 69 {
        } else if j == 70 {
        } else if j == 71 {
        } else if j == 72 {
        } else if j == 73 {
        } else if j == 74 {
        } else if j == 75 {
        } else if j == 76 {
        } else if j == 77 {
        } else if j == 78 {
        } else if j == 79 {
        } else if j == 80 {
        } else if j == 81 {
        } else if j == 82 {
        } else if j == 83 {
        } else if j == 84 {
        } else if j == 85 {
        } else if j == 86 {
        } else if j == 87 {
        } else if j == 88 {
        }
    }
}

/// The value a lookup finds is paired in the table with the key looked up.
proof fn lemma_lookup_found(t: Seq<(Seq<char>, Seq<char>)>, key: Seq<char>) -> (j: int)
    requires
        table_lookup(t, key) is Some,
    ensures
        0 <= j < t.len(),
        t[j].0 == key,
        table_lookup(t, key) == Some(t[j].1),
    decreases t.len(),
{
    if t[0].0 == key {
        0
    } else {
        let j = lemma_lookup_found(t.drop_first(), key);
        j + 1
    }
}

/// A key that occurs in the table, every entry of which maps to `v`, is looked up to `v`.
proof fn lemma_lookup_agreeing(t: Seq<(Seq<char>, Seq<char>)>, key: Seq<char>, v: Seq<char>, w: int)
    requires
        0 <= w < t.len(),
        t[w].0 == key,
        forall|j: int| 0 <= j < t.len() && #[trigger] t[j].0 == key ==> t[j].1 == v,
    ensures
        table_lookup(t, key) == Some(v),
    decreases t.len(),
{
    if t[0].0 != key {
        let u = t.drop_first();
        assert forall|j: int| 0 <= j < u.len() && #[trigger] u[j].0 == key implies u[j].1 == v by {
            assert(u[j] == t[j + 1]);
        }
        assert(u[w - 1] == t[w]);
        lemma_lookup_agreeing(u, key, v, w - 1);
    }
}

/// Text of ASCII lowercase letters and `-` has no white space to trim.
proof fn lemma_trim_lower_code(s: Seq<char>)
    requires
        lower_code_text(s),
    ensures
        trim(s) == s,
{
    if s.len() > 0 {
        assert(is_ascii_lower(s[0]) || s[0] == '-');
        assert(is_ascii_lower(s.last()) || s.last() == '-');
    }
}

/// A language code shape is made of ASCII lowercase letters and `-`.
proof fn lemma_code_shape_chars(s: Seq<char>)
    requires
        language_code_shape(s),
    ensures
        lower_code_text(s),
        s.len() > 0,
{
    if !lower_word(s) {
        let p = choose|p: int|
            0 <= p < s.len() && #[trigger] s[p] == '-' && lower_word(s.take(p)) && lower_word(
                s.skip(p + 1),
            );
        assert forall|i: int| 0 <= i < s.len() implies is_ascii_lower(#[trigger] s[i]) || s[i]
            == '-' by {
            if i < p {
                assert(s[i] == s.take(p)[i]);
            } else if i > p {
                assert(s[i] == s.skip(p + 1)[i - p - 1]);
            }
        }
    }
}

/// Normalizing gives a code that normalizes to itself: the code is made of ASCII lowercase
/// letters and `-`, trimming leaves it, and read again as lowercased text it gives itself
/// back. With what `normalize_language_code` states of std's lowercase on such text, a
/// second normalization of the code returns the code.
pub proof fn lemma_normalized_code_is_stable(language: Seq<char>, code: Seq<char>)
    requires
        normalized_code(language) == Ok::<Option<Seq<char>>, ()>(Some(code)),
    ensures
        lower_code_text(code),
        trim(code) == code,
        code_from_lowered(code) == Ok::<Option<Seq<char>>, ()>(Some(code)),
{
    let t = language_alias_table();
    let n = replace_char(unicode_lowercase(trim(language)), '_', '-');
    match table_lookup(t, n) {
        Some(v) => {
            lemma_alias_table_ok();
            let j = lemma_lookup_found(t, n);
            assert(alias_entry_ok(t, j));
            assert(v == code);
            let w = choose|w: int| 0 <= w < t.len() && #[trigger] t[w].0 == t[j].1;
            assert forall|i: int| 0 <= i < t.len() && #[trigger] t[i].0 == code implies t[i].1
                == code by {
                assert(alias_entry_ok(t, i));
            }
            lemma_lookup_agreeing(t, code, code, w);
            assert forall|i: int| 0 <= i < code.len() implies is_ascii_lower(#[trigger] code[i])
                || code[i] == '-' by {}
        },
        None => {
            assert(code == n);
            lemma_code_shape_chars(code);
        },
    }
    lemma_trim_lower_code(code);
    assert(replace_char(code, '_', '-') =~= code);
}

/// The keys of a table of string pairs.
pub open spec fn table_keys(t: Seq<(Seq<char>, Seq<char>)>) -> Seq<Seq<char>> {
    t.map_values(|p: (Seq<char>, Seq<char>)| p.0)
}

/// `x` is none of the first `n` elements of `s`.
pub open spec fn absent_before(s: Seq<Seq<char>>, x: Seq<char>, n: nat) -> bool
    decreases n,
{
    n == 0 || (s[n - 1] != x && absent_before(s, x, (n - 1) as nat))
}

proof fn lemma_absent_before(s: Seq<Seq<char>>, x: Seq<char>, n: nat)
    requires
        n <= s.len(),
        absent_before(s, x, n),
    ensures
        forall|j: int| 0 <= j < n ==> #[trigger] s[j] != x,
    decreases n,
{
    if n > 0 {
        lemma_absent_before(s, x, (n - 1) as nat);
    }
}

/// A key found at entry `w` and at no entry before it is looked up to that entry's value.
proof fn lemma_lookup_at(t: Seq<(Seq<char>, Seq<char>)>, key: Seq<char>, w: nat)
    requires
        w < t.len(),
        t[w as int].0 == key,
        absent_before(table_keys(t), key, w),
    ensures
        table_lookup(t, key) == Some(t[w as int].1),
    decreases w,
{
    lemma_absent_before(table_keys(t), key, w);
    if w > 0 {
        assert(table_keys(t)[0] == t[0].0);
        let u = t.drop_first();
        assert forall|j: int| 0 <= j < w - 1 implies #[trigger] table_keys(u)[j] != key by {
            assert(table_keys(u)[j] == table_keys(t)[j + 1]);
        }
        lemma_absent_from(table_keys(u), key, (w - 1) as nat);
        lemma_lookup_at(u, key, (w - 1) as nat);
    }
}

proof fn lemma_absent_from(s: Seq<Seq<char>>, x: Seq<char>, n: nat)
    requires
        n <= s.len(),
        forall|j: int| 0 <= j < n ==> #[trigger] s[j] != x,
    ensures
        absent_before(s, x, n),
    decreases n,
{
    if n > 0 {
        lemma_absent_from(s, x, (n - 1) as nat);
    }
}

/// Each language of the code table: its name, lowercased, is an alias of its code and
/// reads as that code, and its code is found at its own entry.
proof fn lemma_code_table_entries()
    ensures
        forall|i: int|
            0 <= i < language_code_table().len() ==> {
                let (code, name) = #[trigger] language_code_table()[i];
                &&& table_lookup(language_alias_table(), ascii_lowercase(name)) == Some(code)
                &&& replace_char(ascii_lowercase(name), '_', '-') == ascii_lowercase(name)
                &&& ascii_lowercase(name).len() > 0
                &&& table_lookup(language_code_table(), code) == Some(name)
            },
{
    let t = language_alias_table();
    let ct = language_code_table();
    reveal_with_fuel(absent_before, 60);
    reveal_strlit("ar");
    assert(("ar"@).len() == 2 && ("ar"@)[0] == 'a' && ("ar"@)[1] == 'r');
    reveal_strlit("arabic");
    assert(("arabic"@).len() == 6 && ("arabic"@)[0] == 'a' && ("arabic"@)[1] == 'r' &&
        ("arabic"@)[2] == 'a' && ("arabic"@)[3] == 'b' && ("arabic"@)[4] == 'i' &&
        ("arabic"@)[5] == 'c');
    reveal_strlit("cs");
    assert(("cs"@).len() == 2 && ("cs"@)[0] == 'c' && ("cs"@)[1] == 's');
    reveal_strlit("czech");
    assert(("czech"@).len() == 5 && ("czech"@)[0] == 'c' && ("czech"@)[1] == 'z' &&
        ("czech"@)[2] == 'e' && ("czech"@)[3] == 'c' && ("czech"@)[4] == 'h');
    reveal_strlit("da");
    assert(("da"@).len() == 2 && ("da"@)[0] == 'd' && ("da"@)[1] == 'a');
    reveal_strlit("danish");
    assert(("danish"@).len() == 6 && ("danish"@)[0] == 'd' && ("danish"@)[1] == 'a' &&
        ("danish"@)[2] == 'n' && ("danish"@)[3] == 'i' && ("danish"@)[4] == 's' &&
        ("danish"@)[5] == 'h');
    reveal_strlit("de");
    assert(("de"@).len() == 2 && ("de"@)[0] == 'd' && ("de"@)[1] == 'e');
    reveal_strlit("german");
    assert(("german"@).len() == 6 && ("german"@)[0] == 'g' && ("german"@)[1] == 'e' &&
        ("german"@)[2] == 'r' && ("german"@)[3] == 'm' && ("german"@)[4] == 'a' &&
        ("german"@)[5] == 'n');
    reveal_strlit("en");
    assert(("en"@).len() == 2 && ("en"@)[0] == 'e' && ("en"@)[1] == 'n');
    reveal_strlit("eng");
    assert(("eng"@).len() == 3 && ("eng"@)[0] == 'e' && ("eng"@)[1] == 'n' && ("eng"@)[2] == 'g');
    reveal_strlit("english");
    assert(("english"@).len() == 7 && ("english"@)[0] == 'e' && ("english"@)[1] == 'n' &&
        ("english"@)[2] == 'g' && ("english"@)[3] == 'l' && ("english"@)[4] == 'i' &&
        ("english"@)[5] == 's' && ("english"@)[6] == 'h');
    reveal_strlit("es");
    assert(("es"@).len() == 2 && ("es"@)[0] == 'e' && ("es"@)[1] == 's');
    reveal_strlit("spanish");
    assert(("spanish"@).len() == 7 && ("spanish"@)[0] == 's' && ("spanish"@)[1] == 'p' &&
        ("spanish"@)[2] == 'a' && ("spanish"@)[3] == 'n' && ("spanish"@)[4] == 'i' &&
        ("spanish"@)[5] == 's' && ("spanish"@)[6] == 'h');
    reveal_strlit("fi");
    assert(("fi"@).len() == 2 && ("fi"@)[0] == 'f' && ("fi"@)[1] == 'i');
    reveal_strlit("finnish");
    assert(("finnish"@).len() == 7 && ("finnish"@)[0] == 'f' && ("finnish"@)[1] == 'i' &&
        ("finnish"@)[2] == 'n' && ("finnish"@)[3] == 'n' && ("finnish"@)[4] == 'i' &&
        ("finnish"@)[5] == 's' && ("finnish"@)[6] == 'h');
    reveal_strlit("fil");
    assert(("fil"@).len() == 3 && ("fil"@)[0] == 'f' && ("fil"@)[1] == 'i' && ("fil"@)[2] == 'l');
    reveal_strlit("filipino");
    assert(("filipino"@).len() == 8 && ("filipino"@)[0] == 'f' && ("filipino"@)[1] == 'i' &&
        ("filipino"@)[2] == 'l' && ("filipino"@)[3] == 'i' && ("filipino"@)[4] == 'p' &&
        ("filipino"@)[5] == 'i' && ("filipino"@)[6] == 'n' && ("filipino"@)[7] == 'o');
    reveal_strlit("fr");
    assert(("fr"@).len() == 2 && ("fr"@)[0] == 'f' && ("fr"@)[1] == 'r');
    reveal_strlit("french");
    assert(("french"@).len() == 6 && ("french"@)[0] == 'f' && ("french"@)[1] == 'r' &&
        ("french"@)[2] == 'e' && ("french"@)[3] == 'n' && ("french"@)[4] == 'c' &&
        ("french"@)[5] == 'h');
    reveal_strlit("hi");
    assert(("hi"@).len() == 2 && ("hi"@)[0] == 'h' && ("hi"@)[1] == 'i');
    reveal_strlit("hindi");
    assert(("hindi"@).len() == 5 && ("hindi"@)[0] == 'h' && ("hindi"@)[1] == 'i' &&
        ("hindi"@)[2] == 'n' && ("hindi"@)[3] == 'd' && ("hindi"@)[4] == 'i');
    reveal_strlit("id");
    assert(("id"@).len() == 2 && ("id"@)[0] == 'i' && ("id"@)[1] == 'd');
    reveal_strlit("indonesian");
    assert(("indonesian"@).len() == 10 && ("indonesian"@)[0] == 'i' && ("indonesian"@)[1] == 'n' &&
        ("indonesian"@)[2] == 'd' && ("indonesian"@)[3] == 'o' && ("indonesian"@)[4] == 'n' &&
        ("indonesian"@)[5] == 'e' && ("indonesian"@)[6] == 's' && ("indonesian"@)[7] == 'i' &&
        ("indonesian"@)[8] == 'a' && ("indonesian"@)[9] == 'n');
    reveal_strlit("is");
    assert(("is"@).len() == 2 && ("is"@)[0] == 'i' && ("is"@)[1] == 's');
    reveal_strlit("icelandic");
    assert(("icelandic"@).len() == 9 && ("icelandic"@)[0] == 'i' && ("icelandic"@)[1] == 'c' &&
        ("icelandic"@)[2] == 'e' && ("icelandic"@)[3] == 'l' && ("icelandic"@)[4] == 'a' &&
        ("icelandic"@)[5] == 'n' && ("icelandic"@)[6] == 'd' && ("icelandic"@)[7] == 'i' &&
        ("icelandic"@)[8] == 'c');
    reveal_strlit("it");
    assert(("it"@).len() == 2 && ("it"@)[0] == 'i' && ("it"@)[1] == 't');
    reveal_strlit("italian");
    assert(("italian"@).len() == 7 && ("italian"@)[0] == 'i' && ("italian"@)[1] == 't' &&
        ("italian"@)[2] == 'a' && ("italian"@)[3] == 'l' && ("italian"@)[4] == 'i' &&
        ("italian"@)[5] == 'a' && ("italian"@)[6] == 'n');
    reveal_strlit("ja");
    assert(("ja"@).len() == 2 && ("ja"@)[0] == 'j' && ("ja"@)[1] == 'a');
    reveal_strlit("japanese");
    assert(("japanese"@).len() == 8 && ("japanese"@)[0] == 'j' && ("japanese"@)[1] == 'a' &&
        ("japanese"@)[2] == 'p' && ("japanese"@)[3] == 'a' && ("japanese"@)[4] == 'n' &&
        ("japanese"@)[5] == 'e' && ("japanese"@)[6] == 's' && ("japanese"@)[7] == 'e');
    reveal_strlit("ko");
    assert(("ko"@).len() == 2 && ("ko"@)[0] == 'k' && ("ko"@)[1] == 'o');
    reveal_strlit("korean");
    assert(("korean"@).len() == 6 && ("korean"@)[0] == 'k' && ("korean"@)[1] == 'o' &&
        ("korean"@)[2] == 'r' && ("korean"@)[3] == 'e' && ("korean"@)[4] == 'a' &&
        ("korean"@)[5] == 'n');
    reveal_strlit("ms");
    assert(("ms"@).len() == 2 && ("ms"@)[0] == 'm' && ("ms"@)[1] == 's');
    reveal_strlit("malay");
    assert(("malay"@).len() == 5 && ("malay"@)[0] == 'm' && ("malay"@)[1] == 'a' &&
        ("malay"@)[2] == 'l' && ("malay"@)[3] == 'a' && ("malay"@)[4] == 'y');
    reveal_strlit("no");
    assert(("no"@).len() == 2 && ("no"@)[0] == 'n' && ("no"@)[1] == 'o');
    reveal_strlit("norwegian");
    assert(("norwegian"@).len() == 9 && ("norwegian"@)[0] == 'n' && ("norwegian"@)[1] == 'o' &&
        ("norwegian"@)[2] == 'r' && ("norwegian"@)[3] == 'w' && ("norwegian"@)[4] == 'e' &&
        ("norwegian"@)[5] == 'g' && ("norwegian"@)[6] == 'i' && ("norwegian"@)[7] == 'a' &&
        ("norwegian"@)[8] == 'n');
    reveal_strlit("pl");
    assert(("pl"@).len() == 2 && ("pl"@)[0] == 'p' && ("pl"@)[1] == 'l');
    reveal_strlit("polish");
    assert(("polish"@).len() == 6 && ("polish"@)[0] == 'p' && ("polish"@)[1] == 'o' &&
        ("polish"@)[2] == 'l' && ("polish"@)[3] == 'i' && ("polish"@)[4] == 's' &&
        ("polish"@)[5] == 'h');
    reveal_strlit("pt");
    assert(("pt"@).len() == 2 && ("pt"@)[0] == 'p' && ("pt"@)[1] == 't');
    reveal_strlit("portuguese");
    assert(("portuguese"@).len() == 10 && ("portuguese"@)[0] == 'p' && ("portuguese"@)[1] == 'o' &&
        ("portuguese"@)[2] == 'r' && ("portuguese"@)[3] == 't' && ("portuguese"@)[4] == 'u' &&
        ("portuguese"@)[5] == 'g' && ("portuguese"@)[6] == 'u' && ("portuguese"@)[7] == 'e' &&
        ("portuguese"@)[8] == 's' && ("portuguese"@)[9] == 'e');
    reveal_strlit("ru");
    assert(("ru"@).len() == 2 && ("ru"@)[0] == 'r' && ("ru"@)[1] == 'u');
    reveal_strlit("russian");
    assert(("russian"@).len() == 7 && ("russian"@)[0] == 'r' && ("russian"@)[1] == 'u' &&
        ("russian"@)[2] == 's' && ("russian"@)[3] == 's' && ("russian"@)[4] == 'i' &&
        ("russian"@)[5] == 'a' && ("russian"@)[6] == 'n');
    reveal_strlit("sv");
    assert(("sv"@).len() == 2 && ("sv"@)[0] == 's' && ("sv"@)[1] == 'v');
    reveal_strlit("swedish");
    assert(("swedish"@).len() == 7 && ("swedish"@)[0] == 's' && ("swedish"@)[1] == 'w' &&
        ("swedish"@)[2] == 'e' && ("swedish"@)[3] == 'd' && ("swedish"@)[4] == 'i' &&
        ("swedish"@)[5] == 's' && ("swedish"@)[6] == 'h');
    reveal_strlit("th");
    assert(("th"@).len() == 2 && ("th"@)[0] == 't' && ("th"@)[1] == 'h');
    reveal_strlit("thai");
    assert(("thai"@).len() == 4 && ("thai"@)[0] == 't' && ("thai"@)[1] == 'h' && ("thai"@)[2] == 'a' &&
        ("thai"@)[3] == 'i');
    reveal_strlit("tr");
    assert(("tr"@).len() == 2 && ("tr"@)[0] == 't' && ("tr"@)[1] == 'r');
    reveal_strlit("turkish");
    assert(("turkish"@).len() == 7 && ("turkish"@)[0] == 't' && ("turkish"@)[1] == 'u' &&
        ("turkish"@)[2] == 'r' && ("turkish"@)[3] == 'k' && ("turkish"@)[4] == 'i' &&
        ("turkish"@)[5] == 's' && ("turkish"@)[6] == 'h');
    reveal_strlit("uk");
    assert(("uk"@).len() == 2 && ("uk"@)[0] == 'u' && ("uk"@)[1] == 'k');
    reveal_strlit("ukrainian");
    assert(("ukrainian"@).len() == 9 && ("ukrainian"@)[0] == 'u' && ("ukrainian"@)[1] == 'k' &&
        ("ukrainian"@)[2] == 'r' && ("ukrainian"@)[3] == 'a' && ("ukrainian"@)[4] == 'i' &&
        ("ukrainian"@)[5] == 'n' && ("ukrainian"@)[6] == 'i' && ("ukrainian"@)[7] == 'a' &&
        ("ukrainian"@)[8] == 'n');
    reveal_strlit("vi");
    assert(("vi"@).len() == 2 && ("vi"@)[0] == 'v' && ("vi"@)[1] == 'i');
    reveal_strlit("vietnamese");
    assert(("vietnamese"@).len() == 10 && ("vietnamese"@)[0] == 'v' && ("vietnamese"@)[1] == 'i' &&
        ("vietnamese"@)[2] == 'e' && ("vietnamese"@)[3] == 't' && ("vietnamese"@)[4] == 'n' &&
        ("vietnamese"@)[5] == 'a' && ("vietnamese"@)[6] == 'm' && ("vietnamese"@)[7] == 'e' &&
        ("vietnamese"@)[8] == 's' && ("vietnamese"@)[9] == 'e');
    reveal_strlit("yue");
    assert(("yue"@).len() == 3 && ("yue"@)[0] == 'y' && ("yue"@)[1] == 'u' && ("yue"@)[2] == 'e');
    reveal_strlit("cantonese");
    assert(("cantonese"@).len() == 9 && ("cantonese"@)[0] == 'c' && ("cantonese"@)[1] == 'a' &&
        ("cantonese"@)[2] == 'n' && ("cantonese"@)[3] == 't' && ("cantonese"@)[4] == 'o' &&
        ("cantonese"@)[5] == 'n' && ("cantonese"@)[6] == 'e' && ("cantonese"@)[7] == 's' &&
        ("cantonese"@)[8] == 'e');
    reveal_strlit("zh");
    assert(("zh"@).len() == 2 && ("zh"@)[0] == 'z' && ("zh"@)[1] == 'h');
    reveal_strlit("cn");
    assert(("cn"@).len() == 2 && ("cn"@)[0] == 'c' && ("cn"@)[1] == 'n');
    reveal_strlit("zh-cn");
    assert(("zh-cn"@).len() == 5 && ("zh-cn"@)[0] == 'z' && ("zh-cn"@)[1] == 'h' &&
        ("zh-cn"@)[2] == '-' && ("zh-cn"@)[3] == 'c' && ("zh-cn"@)[4] == 'n');
    reveal_strlit("mandarin");
    assert(("mandarin"@).len() == 8 && ("mandarin"@)[0] == 'm' && ("mandarin"@)[1] == 'a' &&
        ("mandarin"@)[2] == 'n' && ("mandarin"@)[3] == 'd' && ("mandarin"@)[4] == 'a' &&
        ("mandarin"@)[5] == 'r' && ("mandarin"@)[6] == 'i' && ("mandarin"@)[7] == 'n');
    reveal_strlit("putonghua");
    assert(("putonghua"@).len() == 9 && ("putonghua"@)[0] == 'p' && ("putonghua"@)[1] == 'u' &&
        ("putonghua"@)[2] == 't' && ("putonghua"@)[3] == 'o' && ("putonghua"@)[4] == 'n' &&
        ("putonghua"@)[5] == 'g' && ("putonghua"@)[6] == 'h' && ("putonghua"@)[7] == 'u' &&
        ("putonghua"@)[8] == 'a');
    reveal_strlit("chinese");
    assert(("chinese"@).len() == 7 && ("chinese"@)[0] == 'c' && ("chinese"@)[1] == 'h' &&
        ("chinese"@)[2] == 'i' && ("chinese"@)[3] == 'n' && ("chinese"@)[4] == 'e' &&
        ("chinese"@)[5] == 's' && ("chinese"@)[6] == 'e');
    reveal_strlit("Arabic");
    assert(("Arabic"@).len() == 6 && ("Arabic"@)[0] == 'A' && ("Arabic"@)[1] == 'r' &&
        ("Arabic"@)[2] == 'a' && ("Arabic"@)[3] == 'b' && ("Arabic"@)[4] == 'i' &&
        ("Arabic"@)[5] == 'c');
    reveal_strlit("Czech");
    assert(("Czech"@).len() == 5 && ("Czech"@)[0] == 'C' && ("Czech"@)[1] == 'z' &&
        ("Czech"@)[2] == 'e' && ("Czech"@)[3] == 'c' && ("Czech"@)[4] == 'h');
    reveal_strlit("Danish");
    assert(("Danish"@).len() == 6 && ("Danish"@)[0] == 'D' && ("Danish"@)[1] == 'a' &&
        ("Danish"@)[2] == 'n' && ("Danish"@)[3] == 'i' && ("Danish"@)[4] == 's' &&
        ("Danish"@)[5] == 'h');
    reveal_strlit("German");
    assert(("German"@).len() == 6 && ("German"@)[0] == 'G' && ("German"@)[1] == 'e' &&
        ("German"@)[2] == 'r' && ("German"@)[3] == 'm' && ("German"@)[4] == 'a' &&
        ("German"@)[5] == 'n');
    reveal_strlit("English");
    assert(("English"@).len() == 7 && ("English"@)[0] == 'E' && ("English"@)[1] == 'n' &&
        ("English"@)[2] == 'g' && ("English"@)[3] == 'l' && ("English"@)[4] == 'i' &&
        ("English"@)[5] == 's' && ("English"@)[6] == 'h');
    reveal_strlit("Spanish");
    assert(("Spanish"@).len() == 7 && ("Spanish"@)[0] == 'S' && ("Spanish"@)[1] == 'p' &&
        ("Spanish"@)[2] == 'a' && ("Spanish"@)[3] == 'n' && ("Spanish"@)[4] == 'i' &&
        ("Spanish"@)[5] == 's' && ("Spanish"@)[6] == 'h');
    reveal_strlit("Finnish");
    assert(("Finnish"@).len() == 7 && ("Finnish"@)[0] == 'F' && ("Finnish"@)[1] == 'i' &&
        ("Finnish"@)[2] == 'n' && ("Finnish"@)[3] == 'n' && ("Finnish"@)[4] == 'i' &&
        ("Finnish"@)[5] == 's' && ("Finnish"@)[6] == 'h');
    reveal_strlit("Filipino");
    assert(("Filipino"@).len() == 8 && ("Filipino"@)[0] == 'F' && ("Filipino"@)[1] == 'i' &&
        ("Filipino"@)[2] == 'l' && ("Filipino"@)[3] == 'i' && ("Filipino"@)[4] == 'p' &&
        ("Filipino"@)[5] == 'i' && ("Filipino"@)[6] == 'n' && ("Filipino"@)[7] == 'o');
    reveal_strlit("French");
    assert(("French"@).len() == 6 && ("French"@)[0] == 'F' && ("French"@)[1] == 'r' &&
        ("French"@)[2] == 'e' && ("French"@)[3] == 'n' && ("French"@)[4] == 'c' &&
        ("French"@)[5] == 'h');
    reveal_strlit("Hindi");
    assert(("Hindi"@).len() == 5 && ("Hindi"@)[0] == 'H' && ("Hindi"@)[1] == 'i' &&
        ("Hindi"@)[2] == 'n' && ("Hindi"@)[3] == 'd' && ("Hindi"@)[4] == 'i');
    reveal_strlit("Indonesian");
    assert(("Indonesian"@).len() == 10 && ("Indonesian"@)[0] == 'I' && ("Indonesian"@)[1] == 'n' &&
        ("Indonesian"@)[2] == 'd' && ("Indonesian"@)[3] == 'o' && ("Indonesian"@)[4] == 'n' &&
        ("Indonesian"@)[5] == 'e' && ("Indonesian"@)[6] == 's' && ("Indonesian"@)[7] == 'i' &&
        ("Indonesian"@)[8] == 'a' && ("Indonesian"@)[9] == 'n');
    reveal_strlit("Icelandic");
    assert(("Icelandic"@).len() == 9 && ("Icelandic"@)[0] == 'I' && ("Icelandic"@)[1] == 'c' &&
        ("Icelandic"@)[2] == 'e' && ("Icelandic"@)[3] == 'l' && ("Icelandic"@)[4] == 'a' &&
        ("Icelandic"@)[5] == 'n' && ("Icelandic"@)[6] == 'd' && ("Icelandic"@)[7] == 'i' &&
        ("Icelandic"@)[8] == 'c');
    reveal_strlit("Italian");
    assert(("Italian"@).len() == 7 && ("Italian"@)[0] == 'I' && ("Italian"@)[1] == 't' &&
        ("Italian"@)[2] == 'a' && ("Italian"@)[3] == 'l' && ("Italian"@)[4] == 'i' &&
        ("Italian"@)[5] == 'a' && ("Italian"@)[6] == 'n');
    reveal_strlit("Japanese");
    assert(("Japanese"@).len() == 8 && ("Japanese"@)[0] == 'J' && ("Japanese"@)[1] == 'a' &&
        ("Japanese"@)[2] == 'p' && ("Japanese"@)[3] == 'a' && ("Japanese"@)[4] == 'n' &&
        ("Japanese"@)[5] == 'e' && ("Japanese"@)[6] == 's' && ("Japanese"@)[7] == 'e');
    reveal_strlit("Korean");
    assert(("Korean"@).len() == 6 && ("Korean"@)[0] == 'K' && ("Korean"@)[1] == 'o' &&
        ("Korean"@)[2] == 'r' && ("Korean"@)[3] == 'e' && ("Korean"@)[4] == 'a' &&
        ("Korean"@)[5] == 'n');
    reveal_strlit("Malay");
    assert(("Malay"@).len() == 5 && ("Malay"@)[0] == 'M' && ("Malay"@)[1] == 'a' &&
        ("Malay"@)[2] == 'l' && ("Malay"@)[3] == 'a' && ("Malay"@)[4] == 'y');
    reveal_strlit("Norwegian");
    assert(("Norwegian"@).len() == 9 && ("Norwegian"@)[0] == 'N' && ("Norwegian"@)[1] == 'o' &&
        ("Norwegian"@)[2] == 'r' && ("Norwegian"@)[3] == 'w' && ("Norwegian"@)[4] == 'e' &&
        ("Norwegian"@)[5] == 'g' && ("Norwegian"@)[6] == 'i' && ("Norwegian"@)[7] == 'a' &&
        ("Norwegian"@)[8] == 'n');
    reveal_strlit("Polish");
    assert(("Polish"@).len() == 6 && ("Polish"@)[0] == 'P' && ("Polish"@)[1] == 'o' &&
        ("Polish"@)[2] == 'l' && ("Polish"@)[3] == 'i' && ("Polish"@)[4] == 's' &&
        ("Polish"@)[5] == 'h');
    reveal_strlit("Portuguese");
    assert(("Portuguese"@).len() == 10 && ("Portuguese"@)[0] == 'P' && ("Portuguese"@)[1] == 'o' &&
        ("Portuguese"@)[2] == 'r' && ("Portuguese"@)[3] == 't' && ("Portuguese"@)[4] == 'u' &&
        ("Portuguese"@)[5] == 'g' && ("Portuguese"@)[6] == 'u' && ("Portuguese"@)[7] == 'e' &&
        ("Portuguese"@)[8] == 's' && ("Portuguese"@)[9] == 'e');
    reveal_strlit("Russian");
    assert(("Russian"@).len() == 7 && ("Russian"@)[0] == 'R' && ("Russian"@)[1] == 'u' &&
        ("Russian"@)[2] == 's' && ("Russian"@)[3] == 's' && ("Russian"@)[4] == 'i' &&
        ("Russian"@)[5] == 'a' && ("Russian"@)[6] == 'n');
    reveal_strlit("Swedish");
    assert(("Swedish"@).len() == 7 && ("Swedish"@)[0] == 'S' && ("Swedish"@)[1] == 'w' &&
        ("Swedish"@)[2] == 'e' && ("Swedish"@)[3] == 'd' && ("Swedish"@)[4] == 'i' &&
        ("Swedish"@)[5] == 's' && ("Swedish"@)[6] == 'h');
    reveal_strlit("Thai");
    assert(("Thai"@).len() == 4 && ("Thai"@)[0] == 'T' && ("Thai"@)[1] == 'h' && ("Thai"@)[2] == 'a' &&
        ("Thai"@)[3] == 'i');
    reveal_strlit("Turkish");
    assert(("Turkish"@).len() == 7 && ("Turkish"@)[0] == 'T' && ("Turkish"@)[1] == 'u' &&
        ("Turkish"@)[2] == 'r' && ("Turkish"@)[3] == 'k' && ("Turkish"@)[4] == 'i' &&
        ("Turkish"@)[5] == 's' && ("Turkish"@)[6] == 'h');
    reveal_strlit("Ukrainian");
    assert(("Ukrainian"@).len() == 9 && ("Ukrainian"@)[0] == 'U' && ("Ukrainian"@)[1] == 'k' &&
        ("Ukrainian"@)[2] == 'r' && ("Ukrainian"@)[3] == 'a' && ("Ukrainian"@)[4] == 'i' &&
        ("Ukrainian"@)[5] == 'n' && ("Ukrainian"@)[6] == 'i' && ("Ukrainian"@)[7] == 'a' &&
        ("Ukrainian"@)[8] == 'n');
    reveal_strlit("Vietnamese");
    assert(("Vietnamese"@).len() == 10 && ("Vietnamese"@)[0] == 'V' && ("Vietnamese"@)[1] == 'i' &&
        ("Vietnamese"@)[2] == 'e' && ("Vietnamese"@)[3] == 't' && ("Vietnamese"@)[4] == 'n' &&
        ("Vietnamese"@)[5] == 'a' && ("Vietnamese"@)[6] == 'm' && ("Vietnamese"@)[7] == 'e' &&
        ("Vietnamese"@)[8] == 's' && ("Vietnamese"@)[9] == 'e');
    reveal_strlit("Cantonese");
    assert(("Cantonese"@).len() == 9 && ("Cantonese"@)[0] == 'C' && ("Cantonese"@)[1] == 'a' &&
        ("Cantonese"@)[2] == 'n' && ("Cantonese"@)[3] == 't' && ("Cantonese"@)[4] == 'o' &&
        ("Cantonese"@)[5] == 'n' && ("Cantonese"@)[6] == 'e' && ("Cantonese"@)[7] == 's' &&
        ("Cantonese"@)[8] == 'e');
    reveal_strlit("Chinese");
    assert(("Chinese"@).len() == 7 && ("Chinese"@)[0] == 'C' && ("Chinese"@)[1] == 'h' &&
        ("Chinese"@)[2] == 'i' && ("Chinese"@)[3] == 'n' && ("Chinese"@)[4] == 'e' &&
        ("Chinese"@)[5] == 's' && ("Chinese"@)[6] == 'e');
    assert forall|i: int| 0 <= i < ct.len() implies {
        let (code, name) = #[trigger] ct[i];
        &&& table_lookup(t, ascii_lowercase(name)) == Some(code)
        &&& replace_char(ascii_lowercase(name), '_', '-') == ascii_lowercase(name)
        &&& ascii_lowercase(name).len() > 0
        &&& table_lookup(ct, code) == Some(name)
    } by {
        if i == 0 {
            assert(ascii_lowercase(ct[0].1) =~= "arabic"@);
            assert(absent_before(table_keys(t), "arabic"@, 1));
            lemma_lookup_at(t, "arabic"@, 1);
            assert(replace_char("arabic"@, '_', '-') =~= "arabic"@);
            assert(absent_before(table_keys(ct), "ar"@, 0));
            lemma_lookup_at(ct, "ar"@, 0);
        } else if i == 1 {
            assert(ascii_lowercase(ct[1].1) =~= "czech"@);
            assert(absent_before(table_keys(t), "czech"@, 3));
            lemma_lookup_at(t, "czech"@, 3);
            assert(replace_char("czech"@, '_', '-') =~= "czech"@);
            assert(absent_before(table_keys(ct), "cs"@, 1));
            lemma_lookup_at(ct, "cs"@, 1);
        } else if i == 2 {
            assert(ascii_lowercase(ct[2].1) =~= "danish"@);
            assert(absent_before(table_keys(t), "danish"@, 5));
            lemma_lookup_at(t, "danish"@, 5);
            assert(replace_char("danish"@, '_', '-') =~= "danish"@);
            assert(absent_before(table_keys(ct), "da"@, 2));
            lemma_lookup_at(ct, "da"@, 2);
        } else if i == 3 {
            assert(ascii_lowercase(ct[3].1) =~= "german"@);
            assert(absent_before(table_keys(t), "german"@, 7));
            lemma_lookup_at(t, "german"@, 7);
            assert(replace_char("german"@, '_', '-') =~= "german"@);
            assert(absent_before(table_keys(ct), "de"@, 3));
            lemma_lookup_at(ct, "de"@, 3);
        } else if i == 4 {
            assert(ascii_lowercase(ct[4].1) =~= "english"@);
            assert(absent_before(table_keys(t), "english"@, 10));
            lemma_lookup_at(t, "english"@, 10);
            assert(replace_char("english"@, '_', '-') =~= "english"@);
            assert(absent_before(table_keys(ct), "en"@, 4));
            lemma_lookup_at(ct, "en"@, 4);
        } else if i == 5 {
            assert(ascii_lowercase(ct[5].1) =~= "spanish"@);
            assert(absent_before(table_keys(t), "spanish"@, 12));
            lemma_lookup_at(t, "spanish"@, 12);
            assert(replace_char("spanish"@, '_', '-') =~= "spanish"@);
            assert(absent_before(table_keys(ct), "es"@, 5));
            lemma_lookup_at(ct, "es"@, 5);
        } else if i == 6 {
            assert(ascii_lowercase(ct[6].1) =~= "finnish"@);
            assert(absent_before(table_keys(t), "finnish"@, 14));
            lemma_lookup_at(t, "finnish"@, 14);
            assert(replace_char("finnish"@, '_', '-') =~= "finnish"@);
            assert(absent_before(table_keys(ct), "fi"@, 6));
            lemma_lookup_at(ct, "fi"@, 6);
        } else if i == 7 {
            assert(ascii_lowercase(ct[7].1) =~= "filipino"@);
            assert(absent_before(table_keys(t), "filipino"@, 16));
            lemma_lookup_at(t, "filipino"@, 16);
            assert(replace_char("filipino"@, '_', '-') =~= "filipino"@);
            assert(absent_before(table_keys(ct), "fil"@, 7));
            lemma_lookup_at(ct, "fil"@, 7);
        } else if i == 8 {
            assert(ascii_lowercase(ct[8].1) =~= "french"@);
            assert(absent_before(table_keys(t), "french"@, 18));
            lemma_lookup_at(t, "french"@, 18);
            assert(replace_char("french"@, '_', '-') =~= "french"@);
            assert(absent_before(table_keys(ct), "fr"@, 8));
            lemma_lookup_at(ct, "fr"@, 8);
        } else if i == 9 {
            assert(ascii_lowercase(ct[9].1) =~= "hindi"@);
            assert(absent_before(table_keys(t), "hindi"@, 20));
            lemma_lookup_at(t, "hindi"@, 20);
            assert(replace_char("hindi"@, '_', '-') =~= "hindi"@);
            assert(absent_before(table_keys(ct), "hi"@, 9));
            lemma_lookup_at(ct, "hi"@, 9);
        } else if i == 10 {
            assert(ascii_lowercase(ct[10].1) =~= "indonesian"@);
            assert(absent_before(table_keys(t), "indonesian"@, 22));
            lemma_lookup_at(t, "indonesian"@, 22);
            assert(replace_char("indonesian"@, '_', '-') =~= "indonesian"@);
            assert(absent_before(table_keys(ct), "id"@, 10));
            lemma_lookup_at(ct, "id"@, 10);
        } else if i == 11 {
            assert(ascii_lowercase(ct[11].1) =~= "icelandic"@);
            assert(absent_before(table_keys(t), "icelandic"@, 24));
            lemma_lookup_at(t, "icelandic"@, 24);
            assert(replace_char("icelandic"@, '_', '-') =~= "icelandic"@);
            assert(absent_before(table_keys(ct), "is"@, 11));
            lemma_lookup_at(ct, "is"@, 11);
        } else if i == 12 {
            assert(ascii_lowercase(ct[12].1) =~= "italian"@);
            assert(absent_before(table_keys(t), "italian"@, 26));
            lemma_lookup_at(t, "italian"@, 26);
            assert(replace_char("italian"@, '_', '-') =~= "italian"@);
            assert(absent_before(table_keys(ct), "it"@, 12));
            lemma_lookup_at(ct, "it"@, 12);
        } else if i == 13 {
            assert(ascii_lowercase(ct[13].1) =~= "japanese"@);
            assert(absent_before(table_keys(t), "japanese"@, 28));
            lemma_lookup_at(t, "japanese"@, 28);
            assert(replace_char("japanese"@, '_', '-') =~= "japanese"@);
            assert(absent_before(table_keys(ct), "ja"@, 13));
            lemma_lookup_at(ct, "ja"@, 13);
        } else if i == 14 {
            assert(ascii_lowercase(ct[14].1) =~= "korean"@);
            assert(absent_before(table_keys(t), "korean"@, 30));
            lemma_lookup_at(t, "korean"@, 30);
            assert(replace_char("korean"@, '_', '-') =~= "korean"@);
            assert(absent_before(table_keys(ct), "ko"@, 14));
            lemma_lookup_at(ct, "ko"@, 14);
        } else if i == 15 {
            assert(ascii_lowercase(ct[15].1) =~= "malay"@);
            assert(absent_before(table_keys(t), "malay"@, 32));
            lemma_lookup_at(t, "malay"@, 32);
            assert(replace_char("malay"@, '_', '-') =~= "malay"@);
            assert(absent_before(table_keys(ct), "ms"@, 15));
            lemma_lookup_at(ct, "ms"@, 15);
        } else if i == 16 {
            assert(ascii_lowercase(ct[16].1) =~= "norwegian"@);
            assert(absent_before(table_keys(t), "norwegian"@, 34));
            lemma_lookup_at(t, "norwegian"@, 34);
            assert(replace_char("norwegian"@, '_', '-') =~= "norwegian"@);
            assert(absent_before(table_keys(ct), "no"@, 16));
            lemma_lookup_at(ct, "no"@, 16);
        } else if i == 17 {
            assert(ascii_lowercase(ct[17].1) =~= "polish"@);
            assert(absent_before(table_keys(t), "polish"@, 36));
            lemma_lookup_at(t, "polish"@, 36);
            assert(replace_char("polish"@, '_', '-') =~= "polish"@);
            assert(absent_before(table_keys(ct), "pl"@, 17));
            lemma_lookup_at(ct, "pl"@, 17);
        } else if i == 18 {
            assert(ascii_lowercase(ct[18].1) =~= "portuguese"@);
            assert(absent_before(table_keys(t), "portuguese"@, 38));
            lemma_lookup_at(t, "portuguese"@, 38);
            assert(replace_char("portuguese"@, '_', '-') =~= "portuguese"@);
            assert(absent_before(table_keys(ct), "pt"@, 18));
            lemma_lookup_at(ct, "pt"@, 18);
        } else if i == 19 {
            assert(ascii_lowercase(ct[19].1) =~= "russian"@);
            assert(absent_before(table_keys(t), "russian"@, 40));
            lemma_lookup_at(t, "russian"@, 40);
            assert(replace_char("russian"@, '_', '-') =~= "russian"@);
            assert(absent_before(table_keys(ct), "ru"@, 19));
            lemma_lookup_at(ct, "ru"@, 19);
        } else if i == 20 {
            assert(ascii_lowercase(ct[20].1) =~= "swedish"@);
            assert(absent_before(table_keys(t), "swedish"@, 42));
            lemma_lookup_at(t, "swedish"@, 42);
            assert(replace_char("swedish"@, '_', '-') =~= "swedish"@);
            assert(absent_before(table_keys(ct), "sv"@, 20));
            lemma_lookup_at(ct, "sv"@, 20);
        } else if i == 21 {
            assert(ascii_lowercase(ct[21].1) =~= "thai"@);
            assert(absent_before(table_keys(t), "thai"@, 44));
            lemma_lookup_at(t, "thai"@, 44);
            assert(replace_char("thai"@, '_', '-') =~= "thai"@);
            assert(absent_before(table_keys(ct), "th"@, 21));
            lemma_lookup_at(ct, "th"@, 21);
        } else if i == 22 {
            assert(ascii_lowercase(ct[22].1) =~= "turkish"@);
            assert(absent_before(table_keys(t), "turkish"@, 46));
            lemma_lookup_at(t, "turkish"@, 46);
            assert(replace_char("turkish"@, '_', '-') =~= "turkish"@);
            assert(absent_before(table_keys(ct), "tr"@, 22));
            lemma_lookup_at(ct, "tr"@, 22);
        } else if i == 23 {
            assert(ascii_lowercase(ct[23].1) =~= "ukrainian"@);
            assert(absent_before(table_keys(t), "ukrainian"@, 48));
            lemma_lookup_at(t, "ukrainian"@, 48);
            assert(replace_char("ukrainian"@, '_', '-') =~= "ukrainian"@);
            assert(absent_before(table_keys(ct), "uk"@, 23));
            lemma_lookup_at(ct, "uk"@, 23);
        } else if i == 24 {
            assert(ascii_lowercase(ct[24].1) =~= "vietnamese"@);
            assert(absent_before(table_keys(t), "vietnamese"@, 50));
            lemma_lookup_at(t, "vietnamese"@, 50);
            assert(replace_char("vietnamese"@, '_', '-') =~= "vietnamese"@);
            assert(absent_before(table_keys(ct), "vi"@, 24));
            lemma_lookup_at(ct, "vi"@, 24);
        } else if i == 25 {
            assert(ascii_lowercase(ct[25].1) =~= "cantonese"@);
            assert(absent_before(table_keys(t), "cantonese"@, 52));
            lemma_lookup_at(t, "cantonese"@, 52);
            assert(replace_char("cantonese"@, '_', '-') =~= "cantonese"@);
            assert(absent_before(table_keys(ct), "yue"@, 25));
            lemma_lookup_at(ct, "yue"@, 25);
        } else if i == 26 {
            assert(ascii_lowercase(ct[26].1) =~= "chinese"@);
            assert(absent_before(table_keys(t), "chinese"@, 58));
            lemma_lookup_at(t, "chinese"@, 58);
            assert(replace_char("chinese"@, '_', '-') =~= "chinese"@);
            assert(absent_before(table_keys(ct), "zh"@, 26));
            lemma_lookup_at(ct, "zh"@, 26);
        }
    }
}

/// No two languages of the code table share a name.
proof fn lemma_code_table_names()
    ensures
        forall|i: int|
            0 <= i < language_code_table().len() ==> absent_before(
                language_code_table().map_values(|p: (Seq<char>, Seq<char>)| p.1),
                #[trigger] language_code_table()[i].1,
                i as nat,
            ),
{
    let ct = language_code_table();
    let names = ct.map_values(|p: (Seq<char>, Seq<char>)| p.1);
    reveal_with_fuel(absent_before, 28);
    reveal_strlit("Arabic");
    assert(("Arabic"@).len() == 6 && ("Arabic"@)[0] == 'A' && ("Arabic"@)[1] == 'r' &&
        ("Arabic"@)[2] == 'a' && ("Arabic"@)[3] == 'b' && ("Arabic"@)[4] == 'i' &&
        ("Arabic"@)[5] == 'c');
    reveal_strlit("Czech");
    assert(("Czech"@).len() == 5 && ("Czech"@)[0] == 'C' && ("Czech"@)[1] == 'z' &&
        ("Czech"@)[2] == 'e' && ("Czech"@)[3] == 'c' && ("Czech"@)[4] == 'h');
    reveal_strlit("Danish");
    assert(("Danish"@).len() == 6 && ("Danish"@)[0] == 'D' && ("Danish"@)[1] == 'a' &&
        ("Danish"@)[2] == 'n' && ("Danish"@)[3] == 'i' && ("Danish"@)[4] == 's' &&
        ("Danish"@)[5] == 'h');
    reveal_strlit("German");
    assert(("German"@).len() == 6 && ("German"@)[0] == 'G' && ("German"@)[1] == 'e' &&
        ("German"@)[2] == 'r' && ("German"@)[3] == 'm' && ("German"@)[4] == 'a' &&
        ("German"@)[5] == 'n');
    reveal_strlit("English");
    assert(("English"@).len() == 7 && ("English"@)[0] == 'E' && ("English"@)[1] == 'n' &&
        ("English"@)[2] == 'g' && ("English"@)[3] == 'l' && ("English"@)[4] == 'i' &&
        ("English"@)[5] == 's' && ("English"@)[6] == 'h');
    reveal_strlit("Spanish");
    assert(("Spanish"@).len() == 7 && ("Spanish"@)[0] == 'S' && ("Spanish"@)[1] == 'p' &&
        ("Spanish"@)[2] == 'a' && ("Spanish"@)[3] == 'n' && ("Spanish"@)[4] == 'i' &&
        ("Spanish"@)[5] == 's' && ("Spanish"@)[6] == 'h');
    reveal_strlit("Finnish");
    assert(("Finnish"@).len() == 7 && ("Finnish"@)[0] == 'F' && ("Finnish"@)[1] == 'i' &&
        ("Finnish"@)[2] == 'n' && ("Finnish"@)[3] == 'n' && ("Finnish"@)[4] == 'i' &&
        ("Finnish"@)[5] == 's' && ("Finnish"@)[6] == 'h');
    reveal_strlit("Filipino");
    assert(("Filipino"@).len() == 8 && ("Filipino"@)[0] == 'F' && ("Filipino"@)[1] == 'i' &&
        ("Filipino"@)[2] == 'l' && ("Filipino"@)[3] == 'i' && ("Filipino"@)[4] == 'p' &&
        ("Filipino"@)[5] == 'i' && ("Filipino"@)[6] == 'n' && ("Filipino"@)[7] == 'o');
    reveal_strlit("French");
    assert(("French"@).len() == 6 && ("French"@)[0] == 'F' && ("French"@)[1] == 'r' &&
        ("French"@)[2] == 'e' && ("French"@)[3] == 'n' && ("French"@)[4] == 'c' &&
        ("French"@)[5] == 'h');
    reveal_strlit("Hindi");
    assert(("Hindi"@).len() == 5 && ("Hindi"@)[0] == 'H' && ("Hindi"@)[1] == 'i' &&
        ("Hindi"@)[2] == 'n' && ("Hindi"@)[3] == 'd' && ("Hindi"@)[4] == 'i');
    reveal_strlit("Indonesian");
    assert(("Indonesian"@).len() == 10 && ("Indonesian"@)[0] == 'I' && ("Indonesian"@)[1] == 'n' &&
        ("Indonesian"@)[2] == 'd' && ("Indonesian"@)[3] == 'o' && ("Indonesian"@)[4] == 'n' &&
        ("Indonesian"@)[5] == 'e' && ("Indonesian"@)[6] == 's' && ("Indonesian"@)[7] == 'i' &&
        ("Indonesian"@)[8] == 'a' && ("Indonesian"@)[9] == 'n');
    reveal_strlit("Icelandic");
    assert(("Icelandic"@).len() == 9 && ("Icelandic"@)[0] == 'I' && ("Icelandic"@)[1] == 'c' &&
        ("Icelandic"@)[2] == 'e' && ("Icelandic"@)[3] == 'l' && ("Icelandic"@)[4] == 'a' &&
        ("Icelandic"@)[5] == 'n' && ("Icelandic"@)[6] == 'd' && ("Icelandic"@)[7] == 'i' &&
        ("Icelandic"@)[8] == 'c');
    reveal_strlit("Italian");
    assert(("Italian"@).len() == 7 && ("Italian"@)[0] == 'I' && ("Italian"@)[1] == 't' &&
        ("Italian"@)[2] == 'a' && ("Italian"@)[3] == 'l' && ("Italian"@)[4] == 'i' &&
        ("Italian"@)[5] == 'a' && ("Italian"@)[6] == 'n');
    reveal_strlit("Japanese");
    assert(("Japanese"@).len() == 8 && ("Japanese"@)[0] == 'J' && ("Japanese"@)[1] == 'a' &&
        ("Japanese"@)[2] == 'p' && ("Japanese"@)[3] == 'a' && ("Japanese"@)[4] == 'n' &&
        ("Japanese"@)[5] == 'e' && ("Japanese"@)[6] == 's' && ("Japanese"@)[7] == 'e');
    reveal_strlit("Korean");
    assert(("Korean"@).len() == 6 && ("Korean"@)[0] == 'K' && ("Korean"@)[1] == 'o' &&
        ("Korean"@)[2] == 'r' && ("Korean"@)[3] == 'e' && ("Korean"@)[4] == 'a' &&
        ("Korean"@)[5] == 'n');
    reveal_strlit("Malay");
    assert(("Malay"@).len() == 5 && ("Malay"@)[0] == 'M' && ("Malay"@)[1] == 'a' &&
        ("Malay"@)[2] == 'l' && ("Malay"@)[3] == 'a' && ("Malay"@)[4] == 'y');
    reveal_strlit("Norwegian");
    assert(("Norwegian"@).len() == 9 && ("Norwegian"@)[0] == 'N' && ("Norwegian"@)[1] == 'o' &&
        ("Norwegian"@)[2] == 'r' && ("Norwegian"@)[3] == 'w' && ("Norwegian"@)[4] == 'e' &&
        ("Norwegian"@)[5] == 'g' && ("Norwegian"@)[6] == 'i' && ("Norwegian"@)[7] == 'a' &&
        ("Norwegian"@)[8] == 'n');
    reveal_strlit("Polish");
    assert(("Polish"@).len() == 6 && ("Polish"@)[0] == 'P' && ("Polish"@)[1] == 'o' &&
        ("Polish"@)[2] == 'l' && ("Polish"@)[3] == 'i' && ("Polish"@)[4] == 's' &&
        ("Polish"@)[5] == 'h');
    reveal_strlit("Portuguese");
    assert(("Portuguese"@).len() == 10 && ("Portuguese"@)[0] == 'P' && ("Portuguese"@)[1] == 'o' &&
        ("Portuguese"@)[2] == 'r' && ("Portuguese"@)[3] == 't' && ("Portuguese"@)[4] == 'u' &&
        ("Portuguese"@)[5] == 'g' && ("Portuguese"@)[6] == 'u' && ("Portuguese"@)[7] == 'e' &&
        ("Portuguese"@)[8] == 's' && ("Portuguese"@)[9] == 'e');
    reveal_strlit("Russian");
    assert(("Russian"@).len() == 7 && ("Russian"@)[0] == 'R' && ("Russian"@)[1] == 'u' &&
        ("Russian"@)[2] == 's' && ("Russian"@)[3] == 's' && ("Russian"@)[4] == 'i' &&
        ("Russian"@)[5] == 'a' && ("Russian"@)[6] == 'n');
    reveal_strlit("Swedish");
    assert(("Swedish"@).len() == 7 && ("Swedish"@)[0] == 'S' && ("Swedish"@)[1] == 'w' &&
        ("Swedish"@)[2] == 'e' && ("Swedish"@)[3] == 'd' && ("Swedish"@)[4] == 'i' &&
        ("Swedish"@)[5] == 's' && ("Swedish"@)[6] == 'h');
    reveal_strlit("Thai");
    assert(("Thai"@).len() == 4 && ("Thai"@)[0] == 'T' && ("Thai"@)[1] == 'h' && ("Thai"@)[2] == 'a' &&
        ("Thai"@)[3] == 'i');
    reveal_strlit("Turkish");
    assert(("Turkish"@).len() == 7 && ("Turkish"@)[0] == 'T' && ("Turkish"@)[1] == 'u' &&
        ("Turkish"@)[2] == 'r' && ("Turkish"@)[3] == 'k' && ("Turkish"@)[4] == 'i' &&
        ("Turkish"@)[5] == 's' && ("Turkish"@)[6] == 'h');
    reveal_strlit("Ukrainian");
    assert(("Ukrainian"@).len() == 9 && ("Ukrainian"@)[0] == 'U' && ("Ukrainian"@)[1] == 'k' &&
        ("Ukrainian"@)[2] == 'r' && ("Ukrainian"@)[3] == 'a' && ("Ukrainian"@)[4] == 'i' &&
        ("Ukrainian"@)[5] == 'n' && ("Ukrainian"@)[6] == 'i' && ("Ukrainian"@)[7] == 'a' &&
        ("Ukrainian"@)[8] == 'n');
    reveal_strlit("Vietnamese");
    assert(("Vietnamese"@).len() == 10 && ("Vietnamese"@)[0] == 'V' && ("Vietnamese"@)[1] == 'i' &&
        ("Vietnamese"@)[2] == 'e' && ("Vietnamese"@)[3] == 't' && ("Vietnamese"@)[4] == 'n' &&
        ("Vietnamese"@)[5] == 'a' && ("Vietnamese"@)[6] == 'm' && ("Vietnamese"@)[7] == 'e' &&
        ("Vietnamese"@)[8] == 's' && ("Vietnamese"@)[9] == 'e');
    reveal_strlit("Cantonese");
    assert(("Cantonese"@).len() == 9 && ("Cantonese"@)[0] == 'C' && ("Cantonese"@)[1] == 'a' &&
        ("Cantonese"@)[2] == 'n' && ("Cantonese"@)[3] == 't' && ("Cantonese"@)[4] == 'o' &&
        ("Cantonese"@)[5] == 'n' && ("Cantonese"@)[6] == 'e' && ("Cantonese"@)[7] == 's' &&
        ("Cantonese"@)[8] == 'e');
    reveal_strlit("Chinese");
    assert(("Chinese"@).len() == 7 && ("Chinese"@)[0] == 'C' && ("Chinese"@)[1] == 'h' &&
        ("Chinese"@)[2] == 'i' && ("Chinese"@)[3] == 'n' && ("Chinese"@)[4] == 'e' &&
        ("Chinese"@)[5] == 's' && ("Chinese"@)[6] == 'e');
    assert forall|i: int| 0 <= i < ct.len() implies absent_before(names, #[trigger] ct[i].1, i as nat) by {
        if i == 0 {
        } else if i == 1 {
        } else if i == 2 {
        } else if i == 3 {
        } else if i == 4 {
        } else if i == 5 {
        } else if i == 6 {
        } else if i == 7 {
        } else if i == 8 {
        } else if i == 9 {
        } else if i == 10 {
        } else if i == 11 {
        } else if i == 12 {
        } else if i == 13 {
        } else if i == 14 {
        } else if i == 15 {
        } else if i == 16 {
        } else if i == 17 {
        } else if i == 18 {
        } else if i == 19 {
        } else if i == 20 {
        } else if i == 21 {
        } else if i == 22 {
        } else if i == 23 {
        } else if i == 24 {
        } else if i == 25 {
        } else if i == 26 {
        }
    }
}

/// An alias that is a language's English name reads as that language's code, and the code
/// is named by that name again: `normalize("Korean")` is `ko`, and `ko` is "Korean".
pub proof fn lemma_language_name_reads_as_its_code(i: int)
    requires
        0 <= i < language_code_table().len(),
    ensures
        code_from_lowered(ascii_lowercase(language_code_table()[i].1)) == Ok::<
            Option<Seq<char>>,
            (),
        >(Some(language_code_table()[i].0)),
        language_name_or(Some(language_code_table()[i].0), None) == language_code_table()[i].1,
{
    lemma_code_table_entries();
    assert(language_code_table()[i] == language_code_table()[i]);
}

/// No two languages of the code table share a name or a code.
pub proof fn lemma_language_table_distinct(i: int, j: int)
    requires
        0 <= i < j < language_code_table().len(),
    ensures
        language_code_table()[i].1 != language_code_table()[j].1,
        language_code_table()[i].0 != language_code_table()[j].0,
{
    lemma_code_table_names();
    let ct = language_code_table();
    let names = ct.map_values(|p: (Seq<char>, Seq<char>)| p.1);
    lemma_absent_before(names, ct[j].1, j as nat);
    assert(names[i] == ct[i].1);
    lemma_code_table_entries();
    assert(table_lookup(ct, ct[j].0) == Some(ct[j].1));
    if ct[i].0 == ct[j].0 {
        assert(table_lookup(ct, ct[i].0) == Some(ct[i].1));
    }
}

/// The language name for `code`, or else `fallback`, or else "Not Supported".
pub open spec fn language_name_or(code: Option<Seq<char>>, fallback: Option<Seq<char>>) -> Seq<
    char,
> {
    match code {
        Some(c) if table_lookup(language_code_table(), c) is Some => table_lookup(
            language_code_table(),
            c,
        )->0,
        _ => match fallback {
            Some(f) => f,
            None => "Not Supported"@,
        },
    }
}

/// The name of the language with code `code`; for an unknown or missing code, `fallback`,
/// or "Not Supported" when there is none.
pub fn code_to_language_name(code: Option<&str>, fallback: Option<&str>) -> (r: String)
    ensures
        r@ == language_name_or(
            match code {
                Some(c) => Some(c@),
                None => None,
            },
            match fallback {
                Some(f) => Some(f@),
                None => None,
            },
        ),
{
    if let Some(c) = code {
        let entries = language_code_entries();
        let key = chars_of(c);
        if let Some(name) = lookup(&entries, key.as_slice()) {
            return name.to_owned();
        }
    }
    match fallback {
        Some(f) => f.to_owned(),
        None => "Not Supported".to_owned(),
    }
}

/// The language name of an optional code, with no fallback.
pub fn normalized_language_name(language: Option<&str>) -> (r: Option<String>)
    ensures
        language is None ==> r is None,
        language matches Some(c) ==> r matches Some(n) && n@ == language_name_or(Some(c@), None),
{
    match language {
        Some(code) => Some(code_to_language_name(Some(code), None)),
        None => None,
    }
}


/// How many times `x` occurs in `s`.
pub open spec fn occurrences(s: Seq<Seq<char>>, x: Seq<char>) -> nat
    decreases s.len(),
{
    if s.len() == 0 {
        0
    } else {
        occurrences(s.drop_last(), x) + if s.last() == x {
            1nat
        } else {
            0
        }
    }
}

/// The strings of a slice, as character sequences.
pub open spec fn strings_view(s: Seq<String>) -> Seq<Seq<char>> {
    s.map_values(|x: String| x@)
}

/// How many of `languages` equal `x`.
fn count_of(languages: &[String], x: &String) -> (r: usize)
    ensures
        r == occurrences(strings_view(languages@), x@),
{
    let ghost v = strings_view(languages@);
    let mut n: usize = 0;
    let mut j: usize = 0;
    while j < languages.len()
        invariant
            j <= languages@.len(),
            v == strings_view(languages@),
            n == occurrences(v.take(j as int), x@),
            n <= j,
        decreases languages@.len() - j,
    {
        assert(v.take(j + 1).drop_last() =~= v.take(j as int));
        if languages[j] == *x {
            n = n + 1;
        }
        j = j + 1;
    }
    assert(v.take(languages@.len() as int) =~= v);
    n
}

/// The language that occurs most often among the detected languages of all chunks, or
/// nothing when there are none. Among equally frequent languages any one may be returned.
pub fn majority_language(languages: &[String]) -> (r: Option<String>)
    ensures
        languages@.len() == 0 <==> r is None,
        r matches Some(best) ==> {
            &&& strings_view(languages@).contains(best@)
            &&& forall|i: int|
                0 <= i < languages@.len() ==> occurrences(
                    strings_view(languages@),
                    #[trigger] languages@[i]@,
                ) <= occurrences(strings_view(languages@), best@)
        },
{
    if languages.len() == 0 {
        return None;
    }
    let ghost v = strings_view(languages@);
    let mut best: usize = 0;
    let mut best_count = count_of(languages, &languages[0]);
    let mut i: usize = 1;
    while i < languages.len()
        invariant
            1 <= i <= languages@.len(),
            best < languages@.len(),
            v == strings_view(languages@),
            best_count == occurrences(v, languages@[best as int]@),
            forall|k: int| 0 <= k < i ==> occurrences(v, #[trigger] languages@[k]@) <= best_count,
        decreases languages@.len() - i,
    {
        let c = count_of(languages, &languages[i]);
        if c > best_count {
            best = i;
            best_count = c;
        }
        i = i + 1;
    }
    let chosen = languages[best].clone();
    assert(v[best as int] == chosen@);
    Some(chosen)
}

} // verus!
