use qwen3_asr_toolkit::api::{
    after_failed_attempt, api_error_message, audio_data_url, failure_message, mime_type_for_path,
    transcription_from_choices, ApiError, ApiErrorBody, DashScopeRequest, MessageContent,
    ResponseChoice, ResponseContent, RetryAction, MAX_API_RETRY,
};

#[test]
fn request_carries_context_audio_and_language() {
    let req = DashScopeRequest::new("qwen3-asr-flash", "ctx", "data:audio/wav;base64,AA==", Some("zh"));
    assert_eq!(req.model, "qwen3-asr-flash");
    assert_eq!(req.input.messages.len(), 2);
    assert_eq!(req.input.messages[0].role, "system");
    match &req.input.messages[0].content[0] {
        MessageContent::System(c) => assert_eq!(c.text, "ctx"),
        _ => panic!("expected system content"),
    }
    match &req.input.messages[1].content[0] {
        MessageContent::User(c) => assert_eq!(c.audio, "data:audio/wav;base64,AA=="),
        _ => panic!("expected user content"),
    }
    assert!(req.parameters.asr_options.enable_lid);
    assert!(!req.parameters.asr_options.enable_itn);
    assert_eq!(req.parameters.asr_options.language, Some("zh"));
}

#[test]
fn mime_types() {
    assert_eq!(mime_type_for_path("/x/a.WAV"), "audio/wav");
    assert_eq!(mime_type_for_path("a.mp3"), "audio/mpeg");
    assert_eq!(mime_type_for_path("a.m4a"), "audio/mp4");
    assert_eq!(mime_type_for_path("a.Flac"), "audio/flac");
    assert_eq!(mime_type_for_path("a.unknownext"), "application/octet-stream");
    assert_eq!(mime_type_for_path("a.ogg"), "audio/ogg");
}

#[test]
fn data_url() {
    assert_eq!(audio_data_url("a.wav", b"hello"), "data:audio/wav;base64,aGVsbG8=");
}

#[test]
fn data_url_padding() {
    assert_eq!(audio_data_url("a.mp3", b""), "data:audio/mpeg;base64,");
    assert_eq!(audio_data_url("a.mp3", b"a"), "data:audio/mpeg;base64,YQ==");
    assert_eq!(audio_data_url("a.mp3", b"ab"), "data:audio/mpeg;base64,YWI=");
    assert_eq!(audio_data_url("a.mp3", b"abc"), "data:audio/mpeg;base64,YWJj");
    assert_eq!(audio_data_url("a.flac", &[0xfb, 0xff, 0xbf]), "data:audio/flac;base64,+/+/");
}

#[test]
fn api_errors() {
    assert_eq!(
        api_error_message(
            400,
            Some(ApiErrorBody { code: Some("InvalidParameter".into()), message: Some("bad".into()) }),
            "{}"
        ),
        "http status_code: 400 [InvalidParameter] bad"
    );
    assert_eq!(
        api_error_message(500, Some(ApiErrorBody { code: None, message: None }), "{}"),
        "http status_code: 500 [UnknownError] {}"
    );
    assert_eq!(api_error_message(502, None, "oops"), "http status_code: 502 oops");
}

#[test]
fn transcription_parts() {
    let choices = vec![ResponseChoice {
        content: ResponseContent::Items(vec!["he".into(), "llo".into()]),
        annotation_languages: Some(vec!["en".into()]),
    }];
    let (lang, text) = transcription_from_choices(&choices, None).unwrap();
    assert_eq!(lang, "English");
    assert_eq!(text, "hello");
    let plain = vec![ResponseChoice {
        content: ResponseContent::Plain("x".repeat(30)),
        annotation_languages: None,
    }];
    let (lang, text) = transcription_from_choices(&plain, Some("ja")).unwrap();
    assert_eq!(lang, "Japanese");
    assert_eq!(text, "x");
    let (lang, _) = transcription_from_choices(&plain, None).unwrap();
    assert_eq!(lang, "Not Supported");
    assert_eq!(transcription_from_choices(&vec![], None), Err(ApiError::MissingChoice));
}

#[test]
fn retry_decisions() {
    assert_eq!(after_failed_attempt(0, "timeout"), RetryAction::RetryAfterPause);
    assert_eq!(after_failed_attempt(MAX_API_RETRY - 2, "timeout"), RetryAction::RetryAfterPause);
    assert_eq!(after_failed_attempt(MAX_API_RETRY - 1, "timeout"), RetryAction::StopAttemptsExhausted);
    assert_eq!(
        after_failed_attempt(0, "http status_code: 400 [DataInspectionFailed] x"),
        RetryAction::StopContentRefused
    );
    let mut attempts = 0;
    loop {
        attempts += 1;
        if after_failed_attempt(attempts - 1, "err") != RetryAction::RetryAfterPause {
            break;
        }
    }
    assert_eq!(attempts, MAX_API_RETRY);
    assert_eq!(failure_message("/a.wav", "boom"), "/a.wav task failed!\nboom");
}
