use gemini_chat::classify::{classify, classify_response, Message};
use gemini_chat::gemini::{
    ApiError, Candidate, Content, GeminiResponse, HarmCategory, HarmProbability, Part,
    SafetyRating,
};

fn text_part(text: &str) -> Part {
    Part {
        thought: None,
        thought_signature: None,
        text: Some(text.to_string()),
        inline_data: None,
        file_data: None,
    }
}

fn textless_part() -> Part {
    Part { thought: None, thought_signature: None, text: None, inline_data: None, file_data: None }
}

fn candidate(parts: Vec<Part>, ratings: Option<Vec<SafetyRating>>) -> Candidate {
    Candidate {
        content: Content { parts, role: Some("model".to_string()) },
        finish_reason: None,
        safety_ratings: ratings,
        index: 0,
        finish_message: None,
    }
}

fn rating(category: HarmCategory, blocked: bool) -> SafetyRating {
    SafetyRating { category, probability: HarmProbability::Negligible, blocked }
}

fn response(candidates: Option<Vec<Candidate>>, error: Option<ApiError>) -> GeminiResponse {
    GeminiResponse {
        candidates,
        prompt_feedback: None,
        usage_meta_deta: None,
        model_version: None,
        response_id: None,
        model_status: None,
        error,
    }
}

#[test]
fn missing_credential_short_circuits() {
    let body = response(Some(vec![candidate(vec![text_part("hello")], None)]), None);
    let m = classify(false, Ok(Ok(body)));
    assert_eq!(m, Message::ApiKeyNotSet);
}

#[test]
fn missing_credential_beats_transport_failure() {
    let m = classify(false, Err("connection refused".to_string()));
    assert_eq!(m, Message::ApiKeyNotSet);
}

#[test]
fn transport_failure_detail_verbatim() {
    let m = classify(true, Err("dns error: no such host".to_string()));
    assert_eq!(m, Message::RequestError("dns error: no such host".to_string()));
}

#[test]
fn parse_failure_detail_verbatim() {
    let m = classify(true, Ok(Err("expected value at line 1 column 1".to_string())));
    assert_eq!(m, Message::ApiResultParsingError("expected value at line 1 column 1".to_string()));
}

#[test]
fn remote_error_preempts_candidates() {
    let err = ApiError { code: 429, message: "quota exceeded".to_string(), status: "RESOURCE_EXHAUSTED".to_string() };
    let body = response(Some(vec![candidate(vec![text_part("a valid answer")], None)]), Some(err));
    let m = classify(true, Ok(Ok(body)));
    assert_eq!(m, Message::ApiError("quota exceeded".to_string()));
}

#[test]
fn blocked_scan_is_candidate_major_rating_minor() {
    let first = candidate(
        vec![],
        Some(vec![
            rating(HarmCategory::HarmCategoryToxicity, false),
            rating(HarmCategory::HarmCategoryMedical, false),
        ]),
    );
    let second = candidate(
        vec![],
        Some(vec![
            rating(HarmCategory::HarmCategoryHarassment, false),
            rating(HarmCategory::HarmCategoryViolence, true),
        ]),
    );
    let m = classify_response(&response(Some(vec![first, second]), None));
    assert_eq!(m, Message::PromptBlocked(HarmCategory::HarmCategoryViolence));
}

#[test]
fn block_preempts_text_of_earlier_candidate() {
    let first = candidate(vec![text_part("an answer")], None);
    let second = candidate(
        vec![],
        Some(vec![rating(HarmCategory::HarmCategoryDangerousContent, true)]),
    );
    let m = classify_response(&response(Some(vec![first, second]), None));
    assert_eq!(m, Message::PromptBlocked(HarmCategory::HarmCategoryDangerousContent));
}

#[test]
fn last_part_wins() {
    let cand = candidate(vec![text_part("reasoning"), text_part("final answer")], None);
    let m = classify_response(&response(Some(vec![cand]), None));
    assert_eq!(m, Message::Response("final answer".to_string()));
}

#[test]
fn unblocked_ratings_leave_text_standing() {
    let cand = candidate(
        vec![text_part("the answer")],
        Some(vec![rating(HarmCategory::HarmCategoryHateSpeech, false)]),
    );
    let m = classify_response(&response(Some(vec![cand]), None));
    assert_eq!(m, Message::Response("the answer".to_string()));
}

#[test]
fn all_textless_candidates_yield_empty() {
    let no_parts = candidate(vec![], None);
    let textless = candidate(vec![textless_part()], None);
    let m = classify_response(&response(Some(vec![no_parts, textless]), None));
    assert_eq!(m, Message::EmptyResponse);
}

#[test]
fn absent_candidate_list_yields_empty() {
    let m = classify_response(&response(None, None));
    assert_eq!(m, Message::EmptyResponse);
}

#[test]
fn empty_candidate_list_yields_empty() {
    let m = classify_response(&response(Some(vec![]), None));
    assert_eq!(m, Message::EmptyResponse);
}

#[test]
fn passive_fields_do_not_disturb_classification() {
    let mut body = response(Some(vec![candidate(vec![text_part("still the answer")], None)]), None);
    body.prompt_feedback = Some(gemini_chat::gemini::PromptFeedback {
        block_reason: Some(gemini_chat::gemini::BlockReason::Safety),
        safety_ratings: vec![rating(HarmCategory::HarmCategoryToxicity, true)],
    });
    body.model_version = Some("test-model".to_string());
    body.response_id = Some("resp-1".to_string());
    let m = classify_response(&body);
    assert_eq!(m, Message::Response("still the answer".to_string()));
}

#[test]
fn textless_last_part_skips_to_next_candidate() {
    let first = candidate(vec![text_part("ignored"), textless_part()], None);
    let second = candidate(vec![text_part("from the second")], None);
    let m = classify_response(&response(Some(vec![first, second]), None));
    assert_eq!(m, Message::Response("from the second".to_string()));
}
