use vstd::prelude::*;

use crate::chars::{
    append_chars, append_str, chars_of, decimal, decimal_chars, string_from_chars, trim, trim_chars,
};

verus! {

/// Sample rate, in Hz, of the mono PCM audio the tool works on.
pub const WAV_SAMPLE_RATE: u32 = 16_000;

/// Longest audio, in seconds, that the recognition service takes in one request.
pub const MAX_API_AUDIO_SECONDS: usize = 180;

/// Whether audio of `num_samples` samples is long enough to be split by voice activity
/// detection: it lasts at least `MAX_API_AUDIO_SECONDS` seconds.
pub fn needs_vad_segmentation(num_samples: usize) -> (r: bool)
    ensures
        r == (num_samples >= MAX_API_AUDIO_SECONDS * WAV_SAMPLE_RATE),
{
    num_samples >= 180 * 16_000
}


/// How the samples of decoded audio are stored.
#[derive(Debug, Clone, Copy, PartialEq, Eq, Structural)]
pub enum SampleEncoding {
    /// 16-bit integers.
    Int16,
    /// 32-bit floats.
    Float32,
}

/// Decoded audio the tool cannot use.
#[derive(Debug, Clone, Copy, PartialEq, Eq, Structural)]
pub enum WavFormatError {
    /// Not mono at `WAV_SAMPLE_RATE`.
    UnexpectedLayout { channels: u16, sample_rate: u32 },
    /// A sample format other than 16-bit integers or 32-bit floats.
    UnsupportedFormat { is_float: bool, bits_per_sample: u16 },
}

/// What the header check gives: mono audio at `WAV_SAMPLE_RATE` Hz is accepted with
/// 16-bit integer or 32-bit float samples; anything else is an error naming what is wrong.
pub open spec fn wav_format_result(channels: u16, sample_rate: u32, is_float: bool, bits_per_sample: u16) -> Result<
    SampleEncoding,
    WavFormatError,
> {
    if channels != 1 || sample_rate != WAV_SAMPLE_RATE {
        Err(WavFormatError::UnexpectedLayout { channels, sample_rate })
    } else if !is_float && bits_per_sample == 16 {
        Ok(SampleEncoding::Int16)
    } else if is_float && bits_per_sample == 32 {
        Ok(SampleEncoding::Float32)
    } else {
        Err(WavFormatError::UnsupportedFormat { is_float, bits_per_sample })
    }
}

/// Checks the header of the decoded audio: it must be mono at `WAV_SAMPLE_RATE` Hz, with
/// 16-bit integer or 32-bit float samples.
pub fn check_wav_format(channels: u16, sample_rate: u32, is_float: bool, bits_per_sample: u16) -> (r:
    Result<SampleEncoding, WavFormatError>)
    ensures
        r == wav_format_result(channels, sample_rate, is_float, bits_per_sample),
{
    if channels != 1 || sample_rate != WAV_SAMPLE_RATE {
        return Err(WavFormatError::UnexpectedLayout { channels, sample_rate });
    }
    if !is_float && bits_per_sample == 16 {
        Ok(SampleEncoding::Int16)
    } else if is_float && bits_per_sample == 32 {
        Ok(SampleEncoding::Float32)
    } else {
        Err(WavFormatError::UnsupportedFormat { is_float, bits_per_sample })
    }
}

/// The text of a header error.
pub open spec fn wav_format_message(e: WavFormatError) -> Seq<char> {
    match e {
        WavFormatError::UnexpectedLayout { channels, sample_rate } =>
            "unexpected ffmpeg wav output: channels="@ + decimal(channels as nat) + ", sample_rate="@
                + decimal(sample_rate as nat),
        WavFormatError::UnsupportedFormat { is_float, bits_per_sample } =>
            "unsupported wav format from ffmpeg: "@ + (if is_float {
                "Float"@
            } else {
                "Int"@
            }) + " "@ + decimal(bits_per_sample as nat) + " bits"@,
    }
}

impl WavFormatError {
    /// The error's text.
    pub fn message(&self) -> (r: String)
        ensures
            r@ == wav_format_message(*self),
    {
        match *self {
            WavFormatError::UnexpectedLayout { channels, sample_rate } => {
                let mut out = chars_of("unexpected ffmpeg wav output: channels=");
                let c = decimal_chars(channels as u64);
                append_chars(&mut out, c.as_slice());
                append_str(&mut out, ", sample_rate=");
                let s = decimal_chars(sample_rate as u64);
                append_chars(&mut out, s.as_slice());
                string_from_chars(out.as_slice())
            },
            WavFormatError::UnsupportedFormat { is_float, bits_per_sample } => {
                let mut out = chars_of("unsupported wav format from ffmpeg: ");
                if is_float {
                    append_str(&mut out, "Float");
                } else {
                    append_str(&mut out, "Int");
                }
                append_str(&mut out, " ");
                let b = decimal_chars(bits_per_sample as u64);
                append_chars(&mut out, b.as_slice());
                append_str(&mut out, " bits");
                string_from_chars(out.as_slice())
            },
        }
    }
}

/// The header fields of WAV audio that the tool reads.
#[derive(Debug, Clone, Copy, PartialEq, Eq, Structural)]
pub struct WavHeader {
    pub channels: u16,
    pub sample_rate: u32,
    pub is_float: bool,
    pub bits_per_sample: u16,
}

/// What `hound::WavReader::new` then `WavReader::spec` give for WAV bytes: the channels,
/// sample rate, whether the samples are floats, and the bits per sample; nothing when the
/// bytes do not decode as WAV.
pub uninterp spec fn wav_header_of(bytes: Seq<u8>) -> Option<(u16, u32, bool, u16)>;

/// What `hound` reads as 16-bit integer samples from WAV bytes (`WavReader::new`, then
/// every item of `WavReader::samples::<i16>`); nothing when the header or a sample fails
/// to read.
pub uninterp spec fn pcm16_samples_of(bytes: Seq<u8>) -> Option<Seq<i16>>;

/// What std's `String::from_utf8_lossy` gives for bytes: the UTF-8 text, with each invalid
/// sequence replaced by U+FFFD.
pub uninterp spec fn utf8_lossy_of(bytes: Seq<u8>) -> Seq<char>;

/// Decodes the header of WAV bytes with `hound::WavReader::new` and reads it with
/// `WavReader::spec`.
#[verifier::external_body]
fn wav_header(bytes: &[u8]) -> (r: Option<WavHeader>)
    ensures
        match r {
            Some(h) => wav_header_of(bytes@) == Some(
                (h.channels, h.sample_rate, h.is_float, h.bits_per_sample),
            ),
            None => wav_header_of(bytes@) is None,
        },
{
    let reader = match hound::WavReader::new(std::io::Cursor::new(bytes)) {
        Ok(reader) => reader,
        Err(_) => return None,
    };
    let spec = reader.spec();
    let is_float = match spec.sample_format {
        hound::SampleFormat::Float => true,
        hound::SampleFormat::Int => false,
    };
    let (channels, sample_rate, bits_per_sample) = (spec.channels, spec.sample_rate, spec.bits_per_sample);
    Some(WavHeader { channels, sample_rate, is_float, bits_per_sample })
}

/// Reads all samples of WAV bytes as 16-bit integers with `hound`
/// (`WavReader::new`, then `WavReader::samples::<i16>`).
#[verifier::external_body]
fn pcm16_samples(bytes: &[u8]) -> (r: Option<Vec<i16>>)
    ensures
        match r {
            Some(v) => pcm16_samples_of(bytes@) == Some(v@),
            None => pcm16_samples_of(bytes@) is None,
        },
{
    match hound::WavReader::new(std::io::Cursor::new(bytes)) {
        Ok(mut reader) => reader.samples::<i16>().collect::<Result<Vec<i16>, hound::Error>>().ok(),
        Err(_) => None,
    }
}

/// Calls std's `String::from_utf8_lossy` on `bytes`.
#[verifier::external_body]
fn utf8_lossy(bytes: &[u8]) -> (r: String)
    ensures
        r@ == utf8_lossy_of(bytes@),
{
    String::from_utf8_lossy(bytes).into_owned()
}

/// The samples of decoded audio: 16-bit integers as read, or a note that they are 32-bit
/// floats, which are read where floats are handled.
#[derive(Debug, PartialEq, Eq)]
pub enum DecodedSamples {
    Int16(Vec<i16>),
    Float32,
}

/// WAV bytes the tool cannot use.
#[derive(Debug, Clone, Copy, PartialEq, Eq, Structural)]
pub enum WavBytesError {
    /// The bytes do not decode as WAV.
    Undecodable,
    /// The header is not one the tool takes.
    Format(WavFormatError),
    /// The header is fine but the 16-bit samples do not read.
    UnreadableSamples,
}

impl WavBytesError {
    /// The error's text.
    pub fn message(&self) -> (r: String)
        ensures
            r@ == match *self {
                WavBytesError::Undecodable => "failed to decode ffmpeg wav output"@,
                WavBytesError::Format(e) => wav_format_message(e),
                WavBytesError::UnreadableSamples => "failed to read 16-bit pcm samples"@,
            },
    {
        match *self {
            WavBytesError::Undecodable => "failed to decode ffmpeg wav output".to_owned(),
            WavBytesError::Format(e) => e.message(),
            WavBytesError::UnreadableSamples => "failed to read 16-bit pcm samples".to_owned(),
        }
    }
}

/// Decodes the WAV audio that ffmpeg wrote: its header must decode and pass
/// `check_wav_format`; 16-bit samples are then read, float samples only noted.
pub fn decode_wav_bytes(bytes: &[u8]) -> (r: Result<DecodedSamples, WavBytesError>)
    ensures
        match wav_header_of(bytes@) {
            None => r matches Err(WavBytesError::Undecodable),
            Some((c, s, f, b)) => match wav_format_result(c, s, f, b) {
                Err(e) => r matches Err(WavBytesError::Format(e2)) && e2 == e,
                Ok(SampleEncoding::Float32) => r matches Ok(DecodedSamples::Float32),
                Ok(SampleEncoding::Int16) => match pcm16_samples_of(bytes@) {
                    Some(v) => r matches Ok(DecodedSamples::Int16(w)) && w@ == v,
                    None => r matches Err(WavBytesError::UnreadableSamples),
                },
            },
        },
{
    let header = match wav_header(bytes) {
        None => {
            return Err(WavBytesError::Undecodable);
        },
        Some(h) => h,
    };
    match check_wav_format(header.channels, header.sample_rate, header.is_float, header.bits_per_sample) {
        Err(e) => Err(WavBytesError::Format(e)),
        Ok(SampleEncoding::Float32) => Ok(DecodedSamples::Float32),
        Ok(SampleEncoding::Int16) => match pcm16_samples(bytes) {
            Some(v) => Ok(DecodedSamples::Int16(v)),
            None => Err(WavBytesError::UnreadableSamples),
        },
    }
}

/// The error reported when ffmpeg fails on `file_path`: its standard error, read as UTF-8
/// with invalid bytes replaced and trimmed, after the path.
pub fn ffmpeg_failure_message(file_path: &str, stderr: &[u8]) -> (r: String)
    ensures
        r@ == "FFmpeg error processing '"@ + file_path@ + "': "@ + trim(utf8_lossy_of(stderr@)),
{
    let text = utf8_lossy(stderr);
    let text_chars = chars_of(text.as_str());
    let trimmed = trim_chars(text_chars.as_slice());
    let mut out = chars_of("FFmpeg error processing '");
    append_str(&mut out, file_path);
    append_str(&mut out, "': ");
    append_chars(&mut out, trimmed.as_slice());
    string_from_chars(out.as_slice())
}

} // verus!
