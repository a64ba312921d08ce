use qwen3_asr_toolkit::language::{
    code_for_lowered, code_to_language_name, majority_language, normalize_language_code,
    normalized_language_name, LanguageError,
};

#[test]
fn normalize_language_alias() {
    assert_eq!(
        normalize_language_code(Some("中文")).expect("normalized"),
        Some("zh".to_string())
    );
}

#[test]
fn normalize_language_code_passthrough() {
    assert_eq!(
        normalize_language_code(Some("en-us")).expect("normalized"),
        Some("en-us".to_string())
    );
}

#[test]
fn normalize_trims_lowercases_and_replaces_underscore() {
    assert_eq!(
        normalize_language_code(Some("  English ")).expect("normalized"),
        Some("en".to_string())
    );
    assert_eq!(
        normalize_language_code(Some("ZH_CN")).expect("normalized"),
        Some("zh".to_string())
    );
    assert_eq!(
        normalize_language_code(Some("PT_br")).expect("normalized"),
        Some("pt-br".to_string())
    );
    assert_eq!(normalize_language_code(Some("   ")).expect("normalized"), None);
    assert_eq!(normalize_language_code(None).expect("normalized"), None);
}

#[test]
fn normalize_rejects_unknown_language() {
    match normalize_language_code(Some("klingon")) {
        Err(LanguageError::Unsupported { language }) => assert_eq!(language, "klingon"),
        other => panic!("unexpected {:?}", other),
    }
    let err = normalize_language_code(Some("e1")).unwrap_err();
    let message = err.message();
    assert!(message.starts_with("Unsupported language 'e1'. Use one of the API language codes: ar, cs,"));
    assert!(message.ends_with("yue, zh."));
}

#[test]
fn language_names() {
    assert_eq!(code_to_language_name(Some("zh"), None), "Chinese");
    assert_eq!(code_to_language_name(Some("yue"), Some("X")), "Cantonese");
    assert_eq!(code_to_language_name(Some("xx"), Some("Fallback")), "Fallback");
    assert_eq!(code_to_language_name(None, None), "Not Supported");
    assert_eq!(normalized_language_name(Some("ja")), Some("Japanese".to_string()));
    assert_eq!(normalized_language_name(None), None);
}

#[test]
fn majority_picks_most_frequent() {
    let langs: Vec<String> = ["English", "Chinese", "Chinese", "English", "Chinese"]
        .iter()
        .map(|s| s.to_string())
        .collect();
    assert_eq!(majority_language(&langs), Some("Chinese".to_string()));
    assert_eq!(majority_language(&[]), None);
    let tie: Vec<String> = vec!["a".to_string(), "b".to_string()];
    let pick = majority_language(&tie).unwrap();
    assert!(pick == "a" || pick == "b");
}

#[test]
fn lowered_language_reading() {
    assert_eq!(code_for_lowered("", "  ").expect("read"), None);
    assert_eq!(code_for_lowered("english", "English").expect("read"), Some("en".to_string()));
    assert_eq!(code_for_lowered("zh_cn", "ZH_CN").expect("read"), Some("zh".to_string()));
    assert_eq!(code_for_lowered("pt_br", "PT_br").expect("read"), Some("pt-br".to_string()));
    assert_eq!(code_for_lowered("abc-de", "abc-de").expect("read"), Some("abc-de".to_string()));
    match code_for_lowered("abcd", "ABCD") {
        Err(LanguageError::Unsupported { language }) => assert_eq!(language, "ABCD"),
        other => panic!("unexpected {:?}", other),
    }
    assert!(code_for_lowered("e-", "E-").is_err());
}

#[test]
fn normalizing_a_code_again_keeps_it() {
    for input in ["中文", "  English ", "ZH_CN", "PT_br", "en-us", "Cantonese", "fil", "eng", "cn"] {
        let code = normalize_language_code(Some(input)).expect("normalized").expect("a code");
        assert_eq!(normalize_language_code(Some(code.as_str())).expect("again"), Some(code.clone()));
    }
}
