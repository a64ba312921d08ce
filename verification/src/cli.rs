use vstd::prelude::*;

use crate::chars::{all_white_space, chars_of, is_white_space_char, lemma_trim_empty, trim};
use crate::paths::{path_join, path_join_of};

verus! {

/// The options of the command line.
pub struct Cli {
    /// The media file or URL to transcribe.
    pub input_file: String,
    /// Text given to the recognition service as context.
    pub context: String,
    /// The language of the audio, when the user names one.
    pub language: Option<String>,
    /// The key for the recognition service.
    pub dashscope_api_key: Option<String>,
    /// How many requests run at the same time.
    pub num_threads: usize,
    /// The target length, in seconds, of the pieces voice activity detection cuts.
    pub vad_segment_threshold: usize,
    /// Where chunk files are kept.
    pub tmp_dir: Option<String>,
    /// Whether to write subtitles too.
    pub save_srt: bool,
    /// Whether to keep quiet.
    pub silence: bool,
}

/// A problem with the command line or its surroundings.
#[derive(Debug, Clone, Copy, PartialEq, Eq, Structural)]
pub enum CliError {
    /// The input file is empty or only white space.
    MissingInputFile,
    /// Zero concurrent requests were asked for.
    ZeroThreads,
    /// A zero target length for speech pieces was asked for.
    ZeroVadSegmentThreshold,
    /// No home directory to put the default temporary directory in.
    NoHomeDir,
}

impl CliError {
    /// The error's text.
    pub fn message(&self) -> (r: String)
        ensures
            r@ == match self {
                CliError::MissingInputFile => "--input-file is required"@,
                CliError::ZeroThreads => "--num-threads must be greater than 0"@,
                CliError::ZeroVadSegmentThreshold => "--vad-segment-threshold must be greater than 0"@,
                CliError::NoHomeDir => "failed to resolve home dir"@,
            },
    {
        match self {
            CliError::MissingInputFile => "--input-file is required".to_owned(),
            CliError::ZeroThreads => "--num-threads must be greater than 0".to_owned(),
            CliError::ZeroVadSegmentThreshold => "--vad-segment-threshold must be greater than 0".to_owned(),
            CliError::NoHomeDir => "failed to resolve home dir".to_owned(),
        }
    }
}

/// Whether `s` is empty or made only of white space.
fn is_blank(s: &str) -> (r: bool)
    ensures
        r == (trim(s@).len() == 0),
{
    let cs = chars_of(s);
    proof {
        lemma_trim_empty(s@);
    }
    let mut i: usize = 0;
    while i < cs.len()
        invariant
            i <= cs@.len(),
            cs@ == s@,
            trim(s@).len() == 0 <==> all_white_space(s@),
            forall|j: int| 0 <= j < i ==> crate::chars::is_white_space(#[trigger] cs@[j]),
        decreases cs@.len() - i,
    {
        if !is_white_space_char(cs[i]) {
            assert(!all_white_space(s@));
            return false;
        }
        i = i + 1;
    }
    assert(all_white_space(s@));
    true
}

impl Cli {
    /// Checks the options: the input file must not be blank, and the number of concurrent
    /// requests and the speech piece length must be positive, checked in that order.
    pub fn validate(&self) -> (r: Result<(), CliError>)
        ensures
            trim(self.input_file@).len() == 0 ==> r == Err::<(), CliError>(CliError::MissingInputFile),
            trim(self.input_file@).len() != 0 && self.num_threads == 0 ==> r == Err::<(), CliError>(
                CliError::ZeroThreads,
            ),
            trim(self.input_file@).len() != 0 && self.num_threads != 0 && self.vad_segment_threshold
                == 0 ==> r == Err::<(), CliError>(CliError::ZeroVadSegmentThreshold),
            trim(self.input_file@).len() != 0 && self.num_threads != 0 && self.vad_segment_threshold
                != 0 ==> r is Ok,
    {
        if is_blank(self.input_file.as_str()) {
            return Err(CliError::MissingInputFile);
        }
        if self.num_threads == 0 {
            return Err(CliError::ZeroThreads);
        }
        if self.vad_segment_threshold == 0 {
            return Err(CliError::ZeroVadSegmentThreshold);
        }
        Ok(())
    }

    /// The directory for chunk files: the one given, or `qwen3-asr-cache` in the home
    /// directory `home` (an error when there is none).
    pub fn tmp_dir(&self, home: Option<&str>) -> (r: Result<String, CliError>)
        ensures
            self.tmp_dir matches Some(t) ==> (r matches Ok(p) && p@ == t@),
            self.tmp_dir is None && home is None ==> r == Err::<String, CliError>(
                CliError::NoHomeDir,
            ),
            self.tmp_dir is None ==> (home matches Some(h) ==> (r matches Ok(p) && p@ == path_join_of(
                h@,
                "qwen3-asr-cache"@,
            ))),
    {
        if let Some(path) = &self.tmp_dir {
            return Ok(path.clone());
        }
        match home {
            Some(h) => Ok(path_join(h, "qwen3-asr-cache")),
            None => Err(CliError::NoHomeDir),
        }
    }
}

/// The command line with the short legacy options spelled out: `-key` becomes
/// `--dashscope-api-key` and `-srt` becomes `--save-srt`.
pub open spec fn rewritten_arg(arg: Seq<char>) -> Seq<char> {
    if arg == "-key"@ {
        "--dashscope-api-key"@
    } else if arg == "-srt"@ {
        "--save-srt"@
    } else {
        arg
    }
}

/// Spells out the legacy options `-key` and `-srt`, leaving every other argument as it is.
pub fn rewrite_legacy_args(args: Vec<String>) -> (r: Vec<String>)
    ensures
        r@.len() == args@.len(),
        forall|i: int| 0 <= i < args@.len() ==> #[trigger] r@[i]@ == rewritten_arg(args@[i]@),
{
    let key = "-key".to_owned();
    let srt = "-srt".to_owned();
    let mut out: Vec<String> = Vec::new();
    let mut i: usize = 0;
    while i < args.len()
        invariant
            i <= args@.len(),
            key@ == "-key"@,
            srt@ == "-srt"@,
            out@.len() == i,
            forall|j: int| 0 <= j < i ==> #[trigger] out@[j]@ == rewritten_arg(args@[j]@),
        decreases args@.len() - i,
    {
        let arg = &args[i];
        if *arg == key {
            out.push("--dashscope-api-key".to_owned());
        } else if *arg == srt {
            out.push("--save-srt".to_owned());
        } else {
            out.push(arg.clone());
        }
        i = i + 1;
    }
    out
}

} // verus!
