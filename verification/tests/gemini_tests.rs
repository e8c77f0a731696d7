use ai_step_gen_suite::gemini::{
    choose_inline_audio, detect_mime_type, inline_audio_source, mime_type_for_extension, GeminiAudioSource, GeminiCandidate, GeminiContent,
    GeminiGenerateContentResponse, GeminiPart, InlineData,
};

#[test]
fn test_detect_mime_type() {
    assert_eq!(detect_mime_type("song.mp3").unwrap(), "audio/mpeg");
    assert_eq!(detect_mime_type("song.OGG").unwrap(), "audio/ogg");
    assert_eq!(detect_mime_type("song.wav").unwrap(), "audio/wav");
    assert_eq!(detect_mime_type("song.flac").unwrap(), "audio/flac");
    assert!(detect_mime_type("song.txt").is_err());
}

#[test]
fn mime_type_errors() {
    assert_eq!(mime_type_for_extension(None).unwrap_err(), "No file extension found on audio file.");
    assert_eq!(
        mime_type_for_extension(Some("TXT")).unwrap_err(),
        "Unsupported audio extension: .txt"
    );
    assert_eq!(detect_mime_type("noext").unwrap_err(), "No file extension found on audio file.");
}

#[test]
fn response_text_cases() {
    let none = GeminiGenerateContentResponse { candidates: None };
    assert_eq!(
        none.get_text_content().unwrap_err(),
        "No candidates found in Gemini response (empty candidates list)."
    );
    let empty = GeminiGenerateContentResponse { candidates: Some(vec![]) };
    assert_eq!(empty.get_text_content().unwrap_err(), "Candidates list is empty in Gemini response.");
    let inline = GeminiPart::InlineData {
        inline_data: InlineData { mime_type: "audio/mpeg".into(), data: "AAAA".into() },
    };
    let only_inline = GeminiGenerateContentResponse {
        candidates: Some(vec![GeminiCandidate { content: GeminiContent { parts: vec![inline.clone()] } }]),
    };
    assert_eq!(only_inline.get_text_content().unwrap_err(), "No text part found in the first candidate.");
    let with_text = GeminiGenerateContentResponse {
        candidates: Some(vec![GeminiCandidate {
            content: GeminiContent {
                parts: vec![inline, GeminiPart::Text { text: "first".into() }, GeminiPart::Text { text: "second".into() }],
            },
        }]),
    };
    assert_eq!(with_text.get_text_content().unwrap(), "first");
}

#[test]
fn inline_audio_threshold() {
    assert_eq!(choose_inline_audio(20971520 - 50000 - 10, 10), Some(true));
    assert_eq!(choose_inline_audio(20971520 - 50000 - 10, 11), Some(false));
    assert_eq!(choose_inline_audio(u64::MAX, 1), None);
}

#[test]
fn inline_audio_is_base64_of_the_bytes() {
    let cases: [(&[u8], &str); 4] = [(b"", ""), (b"f", "Zg=="), (b"hello", "aGVsbG8="), (&[0xff, 0xfe, 0x00], "//4A")];
    for (bytes, text) in cases {
        match inline_audio_source("audio/mpeg".to_string(), bytes) {
            GeminiAudioSource::Inline { mime_type, base64_data } => {
                assert_eq!(mime_type, "audio/mpeg");
                assert_eq!(base64_data, text);
            }
            other => panic!("unexpected {:?}", other),
        }
    }
}

#[test]
fn mime_type_of_one_component_paths() {
    assert_eq!(detect_mime_type("song.MP3").unwrap(), "audio/mpeg");
    assert!(detect_mime_type("song").is_err());
    assert!(detect_mime_type(".mp3").is_err());
}
