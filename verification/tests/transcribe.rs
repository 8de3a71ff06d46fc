use audio_workflow::transcribe::{build_request, check_api_status, clean_response_text,
    first_candidate_text, instruction, payload_from_response_text, require_credential};
use audio_workflow::{Candidate, CandidateContent, CandidatePart, GenerateContentResponse, Part,
    TranscribeError};

#[test]
fn request_holds_instruction_and_encoded_audio() {
    let req = build_request(&b"Test Data".to_vec());
    assert_eq!(req.contents.len(), 1);
    let parts = &req.contents[0].parts;
    assert_eq!(parts.len(), 2);
    match &parts[0] {
        Part::Text { text } => assert_eq!(*text, instruction()),
        _ => panic!("first part should be the instruction"),
    }
    match &parts[1] {
        Part::InlineData { inline_data } => {
            assert_eq!(inline_data.mime_type, "audio/webm");
            assert_eq!(inline_data.data, "VGVzdCBEYXRh");
        },
        _ => panic!("second part should be the inline audio"),
    }
}

#[test]
fn request_encodes_empty_audio_to_empty_data() {
    let req = build_request(&Vec::new());
    match &req.contents[0].parts[1] {
        Part::InlineData { inline_data } => assert_eq!(inline_data.data, ""),
        _ => panic!("second part should be the inline audio"),
    }
}

#[test]
fn instruction_asks_for_raw_json() {
    let text = instruction();
    assert!(text.contains("Transcribe the following audio"));
    assert!(text.contains("\"title\""));
    assert!(text.contains("\"transcript\""));
}

#[test]
fn credential_is_required() {
    assert!(matches!(
        require_credential(None),
        Err(TranscribeError::MissingCredential)
    ));
    assert_eq!(require_credential(Some("k".to_string())).unwrap(), "k");
}

#[test]
fn non_success_status_is_api_error_with_body() {
    assert!(check_api_status(true, String::new()).is_ok());
    match check_api_status(false, "quota exceeded".to_string()) {
        Err(TranscribeError::ApiError(body)) => assert_eq!(body, "quota exceeded"),
        _ => panic!("non-success status should be an ApiError"),
    }
}

fn response_with(parts: Vec<CandidatePart>) -> GenerateContentResponse {
    GenerateContentResponse {
        candidates: Some(vec![Candidate { content: CandidateContent { parts } }]),
    }
}

#[test]
fn first_text_is_picked() {
    let resp = response_with(vec![
        CandidatePart { text: Some("hello".to_string()) },
        CandidatePart { text: Some("ignored".to_string()) },
    ]);
    assert_eq!(first_candidate_text(&resp).unwrap(), "hello");
}

#[test]
fn empty_responses_are_rejected() {
    let none = GenerateContentResponse { candidates: None };
    assert!(matches!(
        first_candidate_text(&none),
        Err(TranscribeError::EmptyResponse)
    ));
    let no_candidates = GenerateContentResponse { candidates: Some(Vec::new()) };
    assert!(matches!(
        first_candidate_text(&no_candidates),
        Err(TranscribeError::EmptyResponse)
    ));
    let no_parts = response_with(Vec::new());
    assert!(matches!(
        first_candidate_text(&no_parts),
        Err(TranscribeError::EmptyResponse)
    ));
    let no_text = response_with(vec![CandidatePart { text: None }]);
    assert!(matches!(
        first_candidate_text(&no_text),
        Err(TranscribeError::EmptyResponse)
    ));
}

#[test]
fn cleaning_strips_json_fence() {
    assert_eq!(clean_response_text("```json\n{\"a\":1}\n```"), "{\"a\":1}");
}

#[test]
fn cleaning_strips_bare_fence_and_whitespace() {
    assert_eq!(clean_response_text("  ```\n{\"a\":1}\n```  "), "{\"a\":1}");
    assert_eq!(clean_response_text("  plain  "), "plain");
    assert_eq!(clean_response_text(""), "");
}

#[test]
fn cleaning_strips_repeated_trailing_fences() {
    assert_eq!(clean_response_text("```\nabc\n``````"), "abc");
}

#[test]
fn cleaning_leaves_unfenced_text_alone() {
    assert_eq!(clean_response_text("{\"title\":\"T\"}"), "{\"title\":\"T\"}");
}

#[test]
fn payload_parses_fenced_json() {
    let t = payload_from_response_text("```json\n{\"title\":\"T\",\"transcript\":\"x\"}\n```")
        .unwrap();
    assert_eq!(t.title.as_deref(), Some("T"));
    assert_eq!(t.transcript.as_deref(), Some("x"));
}

#[test]
fn payload_tolerates_missing_fields() {
    let t = payload_from_response_text("{\"title\":\"only\"}").unwrap();
    assert_eq!(t.title.as_deref(), Some("only"));
    assert!(t.transcript.is_none());

    let u = payload_from_response_text("[1,2,3]").unwrap();
    assert!(u.title.is_none());
    assert!(u.transcript.is_none());

    let v = payload_from_response_text("{\"title\":7}").unwrap();
    assert!(v.title.is_none());
}

#[test]
fn payload_rejects_invalid_json() {
    assert!(payload_from_response_text("not json at all").is_none());
    assert!(payload_from_response_text("{\"title\":").is_none());
}

#[test]
fn error_messages_describe_the_failure() {
    assert_eq!(
        TranscribeError::MissingCredential.message(),
        "transcription API credential is not set"
    );
    assert_eq!(
        TranscribeError::ApiError("boom".to_string()).message(),
        "API error: boom"
    );
    assert_eq!(
        TranscribeError::EmptyResponse.message(),
        "no transcription text found in response"
    );
}
