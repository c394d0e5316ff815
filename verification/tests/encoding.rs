use embed_host::encoding::decode_arg;
use embed_host::encoding::encode_arg;
use embed_host::encoding::has_embedded_nul;
use embed_host::outcome::outcome_from_boundary;
use embed_host::outcome::ExecutionOutcome;
use embed_host::outcome::HostError;

#[test]
fn embedded_nul_detection() {
    assert!(!has_embedded_nul(""));
    assert!(!has_embedded_nul("deno_main.js"));
    assert!(has_embedded_nul("\u{0}"));
    assert!(has_embedded_nul("a\u{0}b"));
    assert!(has_embedded_nul("ab\u{0}"));
}

#[test]
fn encoding_appends_exactly_one_terminator() {
    assert_eq!(encode_arg("hi"), Ok("hi\u{0}".to_string()));
    assert_eq!(encode_arg(""), Ok("\u{0}".to_string()));
    assert_eq!(encode_arg("a\u{0}b"), Err(HostError::EncodingError));
}

#[test]
fn decoding_strips_the_terminator() {
    assert_eq!(decode_arg("hi\u{0}"), "hi".to_string());
    assert_eq!(decode_arg("\u{0}"), "".to_string());
}

#[test]
fn encode_then_decode_is_identity() {
    for text in ["", "x", "denoMain();", "--stack-size=100"] {
        let encoded = encode_arg(text).unwrap();
        assert_eq!(decode_arg(&encoded), text.to_string());
    }
}

#[test]
fn boundary_outcome_classification() {
    assert_eq!(outcome_from_boundary(1, None), Ok(ExecutionOutcome::Success));
    assert_eq!(outcome_from_boundary(-1, None), Ok(ExecutionOutcome::Success));
    assert_eq!(
        outcome_from_boundary(0, Some("boom".to_string())),
        Ok(ExecutionOutcome::Exception("boom".to_string()))
    );
    assert_eq!(outcome_from_boundary(0, None), Err(HostError::BoundaryError));
}

#[test]
fn host_error_diagnostics() {
    assert_eq!(
        HostError::EncodingError.describe(),
        "embedded nul in text for the engine".to_string()
    );
    assert_eq!(
        HostError::BoundaryError.describe(),
        "engine boundary contract violated".to_string()
    );
}
