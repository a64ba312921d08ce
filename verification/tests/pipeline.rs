use qwen3_asr_toolkit::audio::{
    check_wav_format, decode_wav_bytes, ffmpeg_failure_message, needs_vad_segmentation,
    DecodedSamples, SampleEncoding, WavBytesError, WavFormatError,
};
use qwen3_asr_toolkit::pipeline::{
    chunk_file_name, detected_language, join_transcripts, order_by_index, srt_file_path,
    transcript_file_content,
};

#[test]
fn chunk_names() {
    assert_eq!(chunk_file_name("talk", 0), "talk_0.wav");
    assert_eq!(chunk_file_name("talk", 12), "talk_12.wav");
}

#[test]
fn results_are_put_in_chunk_order() {
    let results = vec![(2usize, "c".to_string()), (0, "a".to_string()), (1, "b".to_string())];
    let ordered = order_by_index(&results);
    assert_eq!(ordered, vec![(0, "a".to_string()), (1, "b".to_string()), (2, "c".to_string())]);
    assert_eq!(join_transcripts(&ordered), "a b c");
    assert_eq!(join_transcripts(&vec![]), "");
}

#[test]
fn ordering_is_stable_for_equal_numbers() {
    let results = vec![
        (1usize, "x".to_string()),
        (0, "a".to_string()),
        (1, "y".to_string()),
        (0, "b".to_string()),
    ];
    let ordered = order_by_index(&results);
    assert_eq!(
        ordered,
        vec![
            (0, "a".to_string()),
            (0, "b".to_string()),
            (1, "x".to_string()),
            (1, "y".to_string()),
        ]
    );
    assert_eq!(order_by_index(&vec![]), vec![]);
    let gaps = vec![(7usize, "late".to_string()), (3, "early".to_string())];
    assert_eq!(order_by_index(&gaps), vec![(3, "early".to_string()), (7, "late".to_string())]);
}

#[test]
fn subtitle_path_replaces_extension() {
    assert_eq!(srt_file_path("talk"), "talk.srt");
    assert_eq!(srt_file_path("dir/talk.en.txt"), "dir/talk.en.srt");
}

#[test]
fn transcript_file() {
    assert_eq!(transcript_file_content("Chinese", "你好"), "Chinese\n你好\n");
    assert_eq!(detected_language(&[]), "Not Supported");
    assert_eq!(detected_language(&["English".to_string()]), "English");
    assert_eq!(srt_file_path("/a/b.txt"), "/a/b.srt");
}

#[test]
fn segmentation_threshold() {
    assert!(!needs_vad_segmentation(180 * 16_000 - 1));
    assert!(needs_vad_segmentation(180 * 16_000));
    let mut n = 2_879_000usize;
    while n < 2_881_000 {
        assert_eq!(needs_vad_segmentation(n), n as f32 / 16_000f32 >= 180.0);
        n += 1;
    }
}

#[test]
fn wav_formats() {
    assert_eq!(check_wav_format(1, 16_000, false, 16), Ok(SampleEncoding::Int16));
    assert_eq!(check_wav_format(1, 16_000, true, 32), Ok(SampleEncoding::Float32));
    let e = check_wav_format(2, 16_000, false, 16).unwrap_err();
    assert_eq!(e.message(), "unexpected ffmpeg wav output: channels=2, sample_rate=16000");
    let e = check_wav_format(1, 16_000, false, 24).unwrap_err();
    assert_eq!(e, WavFormatError::UnsupportedFormat { is_float: false, bits_per_sample: 24 });
    assert_eq!(e.message(), "unsupported wav format from ffmpeg: Int 24 bits");
}

fn int_wav(channels: u16, sample_rate: u32, bits: u16, samples: &[i16]) -> Vec<u8> {
    let spec = hound::WavSpec {
        channels,
        sample_rate,
        bits_per_sample: bits,
        sample_format: hound::SampleFormat::Int,
    };
    let mut cursor = std::io::Cursor::new(Vec::new());
    {
        let mut writer = hound::WavWriter::new(&mut cursor, spec).expect("writer");
        for sample in samples {
            if bits == 8 {
                writer.write_sample(*sample as i8).expect("sample");
            } else {
                writer.write_sample(*sample).expect("sample");
            }
        }
        writer.finalize().expect("finalize");
    }
    cursor.into_inner()
}

#[test]
fn wav_bytes_with_16_bit_samples_decode() {
    let bytes = int_wav(1, 16_000, 16, &[1, -2, 300, i16::MIN]);
    assert_eq!(
        decode_wav_bytes(&bytes),
        Ok(DecodedSamples::Int16(vec![1, -2, 300, i16::MIN]))
    );
    assert_eq!(decode_wav_bytes(&int_wav(1, 16_000, 16, &[])), Ok(DecodedSamples::Int16(vec![])));
}

#[test]
fn wav_bytes_with_float_samples_are_noted() {
    let spec = hound::WavSpec {
        channels: 1,
        sample_rate: 16_000,
        bits_per_sample: 32,
        sample_format: hound::SampleFormat::Float,
    };
    let mut cursor = std::io::Cursor::new(Vec::new());
    {
        let mut writer = hound::WavWriter::new(&mut cursor, spec).expect("writer");
        writer.write_sample(0.5f32).expect("sample");
        writer.finalize().expect("finalize");
    }
    assert_eq!(decode_wav_bytes(&cursor.into_inner()), Ok(DecodedSamples::Float32));
}

#[test]
fn wav_bytes_with_wrong_header_are_refused() {
    let stereo = decode_wav_bytes(&int_wav(2, 16_000, 16, &[1, 2])).unwrap_err();
    assert_eq!(
        stereo,
        WavBytesError::Format(WavFormatError::UnexpectedLayout { channels: 2, sample_rate: 16_000 })
    );
    assert_eq!(stereo.message(), "unexpected ffmpeg wav output: channels=2, sample_rate=16000");
    let slow = decode_wav_bytes(&int_wav(1, 8_000, 16, &[1])).unwrap_err();
    assert_eq!(
        slow,
        WavBytesError::Format(WavFormatError::UnexpectedLayout { channels: 1, sample_rate: 8_000 })
    );
    let narrow = decode_wav_bytes(&int_wav(1, 16_000, 8, &[1])).unwrap_err();
    assert_eq!(
        narrow,
        WavBytesError::Format(WavFormatError::UnsupportedFormat { is_float: false, bits_per_sample: 8 })
    );
}

#[test]
fn wav_bytes_that_do_not_decode_are_refused() {
    let garbage = decode_wav_bytes(b"not a wav file at all").unwrap_err();
    assert_eq!(garbage, WavBytesError::Undecodable);
    assert_eq!(garbage.message(), "failed to decode ffmpeg wav output");
    let mut bytes = int_wav(1, 16_000, 16, &[1, 2, 3, 4]);
    bytes.truncate(bytes.len() - 3);
    let cut = decode_wav_bytes(&bytes).unwrap_err();
    assert_eq!(cut, WavBytesError::UnreadableSamples);
    assert_eq!(cut.message(), "failed to read 16-bit pcm samples");
}

#[test]
fn ffmpeg_failure_messages() {
    assert_eq!(
        ffmpeg_failure_message("in.mp3", b"  boom: no such file\n"),
        "FFmpeg error processing 'in.mp3': boom: no such file"
    );
    assert_eq!(ffmpeg_failure_message("a", b"\xffx"), "FFmpeg error processing 'a': \u{FFFD}x");
    assert_eq!(ffmpeg_failure_message("a", b""), "FFmpeg error processing 'a': ");
}
