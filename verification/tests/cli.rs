use qwen3_asr_toolkit::cli::{rewrite_legacy_args, Cli, CliError};

fn sample() -> Cli {
    Cli {
        input_file: "in.mp4".to_string(),
        context: String::new(),
        language: None,
        dashscope_api_key: None,
        num_threads: 4,
        vad_segment_threshold: 120,
        tmp_dir: None,
        save_srt: false,
        silence: false,
    }
}

#[test]
fn validate_checks_in_order() {
    assert_eq!(sample().validate(), Ok(()));
    let mut c = sample();
    c.input_file = " \t ".to_string();
    c.num_threads = 0;
    assert_eq!(c.validate(), Err(CliError::MissingInputFile));
    let mut c = sample();
    c.num_threads = 0;
    c.vad_segment_threshold = 0;
    assert_eq!(c.validate(), Err(CliError::ZeroThreads));
    let mut c = sample();
    c.vad_segment_threshold = 0;
    assert_eq!(c.validate(), Err(CliError::ZeroVadSegmentThreshold));
    assert_eq!(CliError::ZeroThreads.message(), "--num-threads must be greater than 0");
}

#[test]
fn tmp_dir_defaults_under_home() {
    assert_eq!(sample().tmp_dir(Some("/home/u")), Ok("/home/u/qwen3-asr-cache".to_string()));
    assert_eq!(sample().tmp_dir(None), Err(CliError::NoHomeDir));
    let mut c = sample();
    c.tmp_dir = Some("/x".to_string());
    assert_eq!(c.tmp_dir(None), Ok("/x".to_string()));
}

#[test]
fn legacy_flags_are_spelled_out() {
    let args: Vec<String> = ["prog", "-key", "k", "-srt", "-i", "f"].iter().map(|s| s.to_string()).collect();
    assert_eq!(
        rewrite_legacy_args(args),
        vec!["prog", "--dashscope-api-key", "k", "--save-srt", "-i", "f"]
    );
}
