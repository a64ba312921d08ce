use std::path::PathBuf;

use qwen3_asr_toolkit::paths::{
    file_stem_or_audio, input_file_name, is_remote_input, output_chunk_dir, output_text_file,
    text_file_for_url_path,
};

#[test]
fn output_text_file_local_path() {
    let path = output_text_file("/tmp/demo.mp3").expect("output path");
    assert_eq!(PathBuf::from(path), PathBuf::from("/tmp/demo.txt"));
}

#[test]
fn output_text_file_remote_url() {
    let path = output_text_file("https://example.com/media/demo.mp3").expect("output path");
    assert_eq!(PathBuf::from(path), PathBuf::from("demo.txt"));
}

#[test]
fn output_text_file_remote_without_name() {
    assert_eq!(output_text_file("https://example.com/").expect("output path"), "audio.txt");
    assert!(output_text_file("http://[bad").is_err());
}

#[test]
fn output_chunk_dir_uses_stem() {
    let path = output_chunk_dir("/tmp/cache", "/a/b/c.mp4");
    assert_eq!(PathBuf::from(path), PathBuf::from("/tmp/cache/c"));
}

#[test]
fn remote_inputs() {
    assert!(is_remote_input("http://x"));
    assert!(is_remote_input("https://x"));
    assert!(!is_remote_input("/tmp/http://x"));
    assert!(!is_remote_input("HTTP://x"));
}

#[test]
fn input_file_names() {
    assert_eq!(input_file_name("/a/b/talk.mp4"), "talk.mp4");
    assert_eq!(input_file_name("https://host/x/y.wav"), "y.wav");
    assert_eq!(input_file_name("https://host/"), "remote_audio.wav");
    assert_eq!(input_file_name("/"), "audio.wav");
    assert_eq!(file_stem_or_audio("talk.mp4"), "talk");
    assert_eq!(file_stem_or_audio(""), "audio");
}

#[test]
fn text_file_names_for_url_paths() {
    assert_eq!(text_file_for_url_path("/media/demo.mp3"), "demo.txt");
    assert_eq!(text_file_for_url_path("/media/demo.mp3/"), "demo.txt");
    assert_eq!(text_file_for_url_path("/"), "audio.txt");
    assert_eq!(text_file_for_url_path(""), "audio.txt");
    assert_eq!(text_file_for_url_path("//a/b.tar.gz//"), "b.tar.txt");
}
