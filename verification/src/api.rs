use vstd::prelude::*;

use base64::Engine;

use crate::chars::{
    append_chars, append_str, ascii_lowercase, ascii_lowercase_chars, chars_of, contains_chars,
    contains_seq, decimal, decimal_chars, string_from_chars,
};
use crate::language::{code_to_language_name, language_name_or, normalized_language_name};
use crate::paths::{path_extension, path_extension_of};
use crate::text::{collapse_char_runs, collapse_pattern_repeats, post_text_process};

verus! {

/// The recognition service's endpoint.
pub const API_URL: &'static str =
    "https://dashscope.aliyuncs.com/api/v1/services/aigc/multimodal-generation/generation";

/// The recognition model asked for.
pub const DEFAULT_MODEL: &'static str = "qwen3-asr-flash";

/// How many times one chunk is sent before giving up.
pub const MAX_API_RETRY: usize = 10;

/// Repetitions beyond which recognised text is cleaned up.
pub const REPEAT_THRESHOLD: usize = 20;

/// The context text of the request.
pub struct SystemContent<'a> {
    pub text: &'a str,
}

/// The audio of the request, as a data URL.
pub struct UserContent<'a> {
    pub audio: &'a str,
}

/// One part of a request message.
pub enum MessageContent<'a> {
    System(SystemContent<'a>),
    User(UserContent<'a>),
}

/// A request message from one role.
pub struct RequestMessage<'a> {
    pub role: &'a str,
    pub content: Vec<MessageContent<'a>>,
}

/// The messages of a request.
pub struct RequestInput<'a> {
    pub messages: Vec<RequestMessage<'a>>,
}

/// Options of the recognition.
pub struct AsrOptions<'a> {
    /// Whether the service reports the language it detects.
    pub enable_lid: bool,
    /// Whether the service normalizes numbers and the like in the text.
    pub enable_itn: bool,
    /// The language of the audio, when known.
    pub language: Option<&'a str>,
}

/// The parameters of a request.
pub struct RequestParameters<'a> {
    pub asr_options: AsrOptions<'a>,
}

/// A recognition request.
pub struct DashScopeRequest<'a> {
    pub model: &'a str,
    pub input: RequestInput<'a>,
    pub parameters: RequestParameters<'a>,
}

impl<'a> DashScopeRequest<'a> {
    /// The request for one chunk: a system message with the context, a user message with
    /// the audio, language detection on, text normalization off, and the language when
    /// it is known.
    pub fn new(model: &'a str, context: &'a str, audio: &'a str, language: Option<&'a str>) -> (r:
        Self)
        ensures
            r.model == model,
            r.input.messages@.len() == 2,
            r.input.messages@[0].role@ == "system"@,
            r.input.messages@[0].content@.len() == 1,
            r.input.messages@[0].content@[0] matches MessageContent::System(c) && c.text == context,
            r.input.messages@[1].role@ == "user"@,
            r.input.messages@[1].content@.len() == 1,
            r.input.messages@[1].content@[0] matches MessageContent::User(c) && c.audio == audio,
            r.parameters.asr_options.enable_lid,
            !r.parameters.asr_options.enable_itn,
            r.parameters.asr_options.language == language,
    {
        let mut system_content: Vec<MessageContent<'a>> = Vec::new();
        system_content.push(MessageContent::System(SystemContent { text: context }));
        let mut user_content: Vec<MessageContent<'a>> = Vec::new();
        user_content.push(MessageContent::User(UserContent { audio }));
        let mut messages: Vec<RequestMessage<'a>> = Vec::new();
        messages.push(RequestMessage { role: "system", content: system_content });
        messages.push(RequestMessage { role: "user", content: user_content });
        DashScopeRequest {
            model,
            input: RequestInput { messages },
            parameters: RequestParameters {
                asr_options: AsrOptions { enable_lid: true, enable_itn: false, language },
            },
        }
    }
}

/// What `mime_guess::from_path(path).first_or_octet_stream().essence_str()` gives: the
/// media type guessed from the path's extension, or `application/octet-stream`.
pub uninterp spec fn guessed_mime_of(path: Seq<char>) -> Seq<char>;

/// Guesses the media type of `path` with the `mime_guess` crate (`from_path`, then
/// `first_or_octet_stream`, then `essence_str` of the `mime` crate); the contract names the
/// resulting text and claims nothing more about it.
#[verifier::external_body]
fn guess_mime_type(path: &str) -> (r: String)
    ensures
        r@ == guessed_mime_of(path@),
{
    mime_guess::from_path(path).first_or_octet_stream().essence_str().to_owned()
}

/// The character for the 6-bit value `v` in the standard base64 alphabet
/// (`A`-`Z`, `a`-`z`, `0`-`9`, `+`, `/`).
pub open spec fn base64_digit(v: int) -> char {
    if v < 26 {
        (65 + v) as char
    } else if v < 52 {
        (97 + v - 26) as char
    } else if v < 62 {
        (48 + v - 52) as char
    } else if v == 62 {
        '+'
    } else {
        '/'
    }
}

/// Standard base64 (RFC 4648) with padding: each group of three bytes becomes four
/// characters, and a last group of one or two bytes is padded with `=`.
pub open spec fn base64_text(b: Seq<u8>) -> Seq<char>
    decreases b.len(),
{
    if b.len() == 0 {
        Seq::empty()
    } else {
        let x = b[0] as int;
        let y = if b.len() > 1 {
            b[1] as int
        } else {
            0
        };
        let z = if b.len() > 2 {
            b[2] as int
        } else {
            0
        };
        let first = base64_digit(x / 4);
        let second = base64_digit((x % 4) * 16 + y / 16);
        if b.len() == 1 {
            seq![first, second, '=', '=']
        } else if b.len() == 2 {
            seq![first, second, base64_digit((y % 16) * 4), '=']
        } else {
            seq![first, second, base64_digit((y % 16) * 4 + z / 64), base64_digit(z % 64)]
                + base64_text(b.skip(3))
        }
    }
}

/// Encodes bytes with `base64::engine::general_purpose::STANDARD.encode`, the standard
/// alphabet with padding; its result is the standard base64 text of the bytes.
#[verifier::external_body]
fn base64_encode(bytes: &[u8]) -> (r: String)
    ensures
        r@ == base64_text(bytes@),
{
    base64::engine::general_purpose::STANDARD.encode(bytes)
}

/// The media type of an audio file: by its extension, without regard to case, for
/// `wav`, `mp3`, `m4a` and `flac`, otherwise as the `mime_guess` crate guesses it.
pub open spec fn mime_type_of(path: Seq<char>) -> Seq<char> {
    match path_extension_of(path) {
        Some(ext) => {
            let e = ascii_lowercase(ext);
            if e == "wav"@ {
                "audio/wav"@
            } else if e == "mp3"@ {
                "audio/mpeg"@
            } else if e == "m4a"@ {
                "audio/mp4"@
            } else if e == "flac"@ {
                "audio/flac"@
            } else {
                guessed_mime_of(path)
            }
        },
        None => guessed_mime_of(path),
    }
}

/// The media type of the audio file at `path`.
pub fn mime_type_for_path(path: &str) -> (r: String)
    ensures
        r@ == mime_type_of(path@),
{
    if let Some(ext) = path_extension(path) {
        let ext_chars = chars_of(ext.as_str());
        let lower = ascii_lowercase_chars(ext_chars.as_slice());
        let wav = chars_of("wav");
        let mp3 = chars_of("mp3");
        let m4a = chars_of("m4a");
        let flac = chars_of("flac");
        if crate::chars::chars_equal(lower.as_slice(), wav.as_slice()) {
            return "audio/wav".to_owned();
        } else if crate::chars::chars_equal(lower.as_slice(), mp3.as_slice()) {
            return "audio/mpeg".to_owned();
        } else if crate::chars::chars_equal(lower.as_slice(), m4a.as_slice()) {
            return "audio/mp4".to_owned();
        } else if crate::chars::chars_equal(lower.as_slice(), flac.as_slice()) {
            return "audio/flac".to_owned();
        }
    }
    guess_mime_type(path)
}

/// The data URL that carries an audio file's bytes: `data:<media type>;base64,<bytes>`.
pub open spec fn audio_data_url_of(path: Seq<char>, bytes: Seq<u8>) -> Seq<char> {
    "data:"@ + mime_type_of(path) + ";base64,"@ + base64_text(bytes)
}

/// The data URL for the audio file at `path` whose content is `bytes`.
pub fn audio_data_url(path: &str, bytes: &[u8]) -> (r: String)
    ensures
        r@ == audio_data_url_of(path@, bytes@),
{
    let mime = mime_type_for_path(path);
    let encoded = base64_encode(bytes);
    let mut out = chars_of("data:");
    append_str(&mut out, mime.as_str());
    append_str(&mut out, ";base64,");
    append_str(&mut out, encoded.as_str());
    string_from_chars(out.as_slice())
}

/// The code and message of an error reply of the service, when its body parsed as one.
pub struct ApiErrorBody {
    pub code: Option<String>,
    pub message: Option<String>,
}

/// The error text for a failed reply with status `status_code` and body `body`.
pub open spec fn api_error_text(status_code: u16, parsed: Option<(Option<Seq<char>>, Option<Seq<char>>)>, body: Seq<char>) -> Seq<char> {
    match parsed {
        Some((code, message)) => "http status_code: "@ + decimal(status_code as nat) + " ["@
            + match code {
            Some(c) => c,
            None => "UnknownError"@,
        } + "] "@ + match message {
            Some(m) => m,
            None => body,
        },
        None => "http status_code: "@ + decimal(status_code as nat) + " "@ + body,
    }
}

/// The error body as character sequences.
pub open spec fn error_body_view(parsed: Option<ApiErrorBody>) -> Option<(Option<Seq<char>>, Option<Seq<char>>)> {
    match parsed {
        Some(b) => Some(
            (
                match b.code {
                    Some(c) => Some(c@),
                    None => None,
                },
                match b.message {
                    Some(m) => Some(m@),
                    None => None,
                },
            ),
        ),
        None => None,
    }
}

/// The error text for a reply that is not a success.
pub fn api_error_message(status_code: u16, parsed: Option<ApiErrorBody>, body: &str) -> (r: String)
    ensures
        r@ == api_error_text(status_code, error_body_view(parsed), body@),
{
    let ghost view = error_body_view(parsed);
    let mut out = chars_of("http status_code: ");
    let digits = decimal_chars(status_code as u64);
    append_chars(&mut out, digits.as_slice());
    match parsed {
        Some(error) => {
            append_str(&mut out, " [");
            match error.code {
                Some(c) => append_str(&mut out, c.as_str()),
                None => append_str(&mut out, "UnknownError"),
            }
            append_str(&mut out, "] ");
            match error.message {
                Some(m) => append_str(&mut out, m.as_str()),
                None => append_str(&mut out, body),
            }
        },
        None => {
            append_str(&mut out, " ");
            append_str(&mut out, body);
        },
    }
    string_from_chars(out.as_slice())
}

/// The recognised text of a reply: a list of text parts or a plain text.
pub enum ResponseContent {
    Items(Vec<String>),
    Plain(String),
}

/// One choice of a successful reply: its text and the languages the service detected.
pub struct ResponseChoice {
    pub content: ResponseContent,
    pub annotation_languages: Option<Vec<String>>,
}

/// A successful reply that cannot be used.
#[derive(Debug, Clone, Copy, PartialEq, Eq, Structural)]
pub enum ApiError {
    /// The reply has no choice.
    MissingChoice,
}

/// The strings of `list` one after another.
pub open spec fn concat_all(list: Seq<Seq<char>>) -> Seq<char>
    decreases list.len(),
{
    if list.len() == 0 {
        Seq::empty()
    } else {
        concat_all(list.drop_last()) + list.last()
    }
}

/// The text of a choice: its parts joined, or its plain text.
pub open spec fn content_text(content: ResponseContent) -> Seq<char> {
    match content {
        ResponseContent::Items(items) => concat_all(items@.map_values(|s: String| s@)),
        ResponseContent::Plain(t) => t@,
    }
}

/// The first detected language of a choice, if any.
pub open spec fn first_language(choice: ResponseChoice) -> Option<Seq<char>> {
    match choice.annotation_languages {
        Some(langs) => if langs@.len() > 0 {
            Some(langs@[0]@)
        } else {
            None
        },
        None => None,
    }
}

/// The text cleanup applied to recognised text.
pub open spec fn cleaned_text(text: Seq<char>) -> Seq<char> {
    collapse_pattern_repeats(collapse_char_runs(text, REPEAT_THRESHOLD as int), REPEAT_THRESHOLD as int, 20)
}

/// The language and cleaned text taken from a successful reply: from its first choice,
/// the language name of the first detected language, falling back to the name of the
/// requested language, and the text with repetitions cleaned up.
pub fn transcription_from_choices(choices: &Vec<ResponseChoice>, requested_language: Option<&str>) -> (r: Result<(String, String), ApiError>)
    ensures
        choices@.len() == 0 <==> r == Err::<(String, String), ApiError>(ApiError::MissingChoice),
        choices@.len() > 0 ==> (r matches Ok((language, text)) && {
            &&& language@ == language_name_or(
                first_language(choices@[0]),
                match requested_language {
                    Some(l) => Some(language_name_or(Some(l@), None)),
                    None => None,
                },
            )
            &&& text@ == cleaned_text(content_text(choices@[0].content))
        }),
{
    if choices.len() == 0 {
        return Err(ApiError::MissingChoice);
    }
    let choice = &choices[0];
    let text = match &choice.content {
        ResponseContent::Items(items) => {
            let ghost v = items@.map_values(|s: String| s@);
            let mut out: Vec<char> = Vec::new();
            let mut i: usize = 0;
            while i < items.len()
                invariant
                    i <= items@.len(),
                    v == items@.map_values(|s: String| s@),
                    out@ == concat_all(v.take(i as int)),
                decreases items@.len() - i,
            {
                append_str(&mut out, items[i].as_str());
                assert(v.take(i + 1).drop_last() =~= v.take(i as int));
                i = i + 1;
            }
            assert(v.take(items@.len() as int) =~= v);
            string_from_chars(out.as_slice())
        },
        ResponseContent::Plain(t) => t.clone(),
    };
    let language_code: Option<&str> = match &choice.annotation_languages {
        Some(langs) => if langs.len() > 0 {
            Some(langs[0].as_str())
        } else {
            None
        },
        None => None,
    };
    let requested_name = normalized_language_name(requested_language);
    let fallback: Option<&str> = match &requested_name {
        Some(n) => Some(n.as_str()),
        None => None,
    };
    let language = code_to_language_name(language_code, fallback);
    let processed = post_text_process(text.as_str(), REPEAT_THRESHOLD);
    Ok((language, processed))
}

/// What to do after a request for a chunk failed.
#[derive(Debug, Clone, Copy, PartialEq, Eq, Structural)]
pub enum RetryAction {
    /// The service refused the content: asking again will not help.
    StopContentRefused,
    /// Wait a moment, then send the request again.
    RetryAfterPause,
    /// All attempts are used up.
    StopAttemptsExhausted,
}

/// Decides what follows the failure of attempt `attempt` (counted from 0) with error
/// text `error_text`: stop when the service's content inspection refused the audio,
/// otherwise retry while fewer than `MAX_API_RETRY` attempts were made.
pub fn after_failed_attempt(attempt: usize, error_text: &str) -> (r: RetryAction)
    ensures
        contains_seq(error_text@, "DataInspectionFailed"@) ==> r == RetryAction::StopContentRefused,
        !contains_seq(error_text@, "DataInspectionFailed"@) && attempt + 1 < MAX_API_RETRY ==> r
            == RetryAction::RetryAfterPause,
        !contains_seq(error_text@, "DataInspectionFailed"@) && attempt + 1 >= MAX_API_RETRY ==> r
            == RetryAction::StopAttemptsExhausted,
{
    let text = chars_of(error_text);
    let marker = chars_of("DataInspectionFailed");
    if contains_chars(text.as_slice(), marker.as_slice()) {
        RetryAction::StopContentRefused
    } else if attempt < MAX_API_RETRY - 1 {
        RetryAction::RetryAfterPause
    } else {
        RetryAction::StopAttemptsExhausted
    }
}

/// The error text when a chunk could not be transcribed.
pub fn failure_message(audio_path: &str, last_error: &str) -> (r: String)
    ensures
        r@ == audio_path@ + " task failed!\n"@ + last_error@,
{
    let mut out = chars_of(audio_path);
    append_str(&mut out, " task failed!\n");
    append_str(&mut out, last_error);
    string_from_chars(out.as_slice())
}

} // verus!
