//! Data model of the generative-language API response.
//!
//! The wire document is optional-heavy: an optional top-level error, an
//! optional candidate list, and per-candidate optional safety ratings and
//! finish data. Every enum of the remote schema carries an explicit
//! fallback variant so that an unknown wire value never fails the parse.

use vstd::prelude::*;

verus! {

/// The deserialized response document for one chat turn.
#[derive(Debug, PartialEq)]
pub struct GeminiResponse {
    pub candidates: Option<Vec<Candidate>>,
    pub prompt_feedback: Option<PromptFeedback>,
    pub usage_meta_deta: Option<UsageMetaData>,
    pub model_version: Option<String>,
    pub response_id: Option<String>,
    pub model_status: Option<ModelStatus>,
    pub error: Option<ApiError>,
}

/// Feedback the service attaches to the prompt as a whole.
#[derive(Debug, PartialEq)]
pub struct PromptFeedback {
    pub block_reason: Option<BlockReason>,
    pub safety_ratings: Vec<SafetyRating>,
}

/// Why the prompt as a whole was blocked, if it was.
#[derive(Debug, Clone, Copy, PartialEq, Eq, Structural)]
pub enum BlockReason {
    BlockReasonUnspecified,
    Safety,
    Other,
    BlockList,
    ProhibitedContent,
    ImageSafety,
    Unknown,
}

/// Token accounting reported by the service.
#[derive(Debug, PartialEq)]
pub struct UsageMetaData {
    pub prompt_token_count: String,
    pub thoughts_token_count: String,
    pub total_token_count: String,
}

/// Lifecycle information about the remote model.
#[derive(Debug, PartialEq)]
pub struct ModelStatus {
    pub model_stage: ModelStage,
    pub retirement_time: String,
    pub message: String,
}

/// Lifecycle stage of the remote model.
#[derive(Debug, Clone, Copy, PartialEq, Eq, Structural)]
pub enum ModelStage {
    ModelStageUnspecified,
    Experimental,
    Preview,
    Stable,
    Legacy,
    Retired,
    Unknown,
}

/// One alternative completion returned for a single request.
#[derive(Debug, PartialEq)]
pub struct Candidate {
    pub content: Content,
    pub finish_reason: Option<FinishReason>,
    pub safety_ratings: Option<Vec<SafetyRating>>,
    pub index: u32,
    pub finish_message: Option<String>,
}

/// Why the model stopped generating a candidate.
#[derive(Debug, Clone, Copy, PartialEq, Eq, Structural)]
pub enum FinishReason {
    FinishReasonUnspecified,
    Stop,
    MaxTokens,
    Safety,
    Recitation,
    Language,
    Other,
    Blocklist,
    ProhibitedContent,
    Spii,
    MalformedFunctionCall,
    ImageSafety,
    ImageProhibitedContent,
    ImageOther,
    NoImage,
    ImageRecitation,
    UnexpectedToolCall,
    TooManyToolCalls,
    MissingThoughtSignature,
    Unknown,
}

/// A policy classification attached to a candidate.
#[derive(Debug, Clone, Copy, PartialEq, Eq, Structural)]
pub struct SafetyRating {
    pub category: HarmCategory,
    pub probability: HarmProbability,
    pub blocked: bool,
}

/// How likely the rated harm was judged to be.
#[derive(Debug, Clone, Copy, PartialEq, Eq, Structural)]
pub enum HarmProbability {
    HarmProbabilityUnspecified,
    Negligible,
    Low,
    Medium,
    High,
    Unknown,
}

/// The kind of harm a safety rating speaks of.
#[derive(Debug, Clone, Copy, PartialEq, Eq, Structural)]
pub enum HarmCategory {
    HarmCategoryUnspecified,
    HarmCategoryDerogratory,
    HarmCategoryToxicity,
    HarmCategoryViolence,
    HarmCategroySexual,
    HarmCategoryMedical,
    HarmCategoryDangerous,
    HarmCategoryHarassment,
    HarmCategoryHateSpeech,
    HarmCategorySexuallyExplicit,
    HarmCategoryDangerousContent,
    Unkown,
}

/// The content of one candidate: an ordered list of parts.
#[derive(Debug, PartialEq)]
pub struct Content {
    pub parts: Vec<Part>,
    pub role: Option<String>,
}

/// A segment of a candidate's content: text, inline data, or a file.
#[derive(Debug, PartialEq)]
pub struct Part {
    pub thought: Option<bool>,
    pub thought_signature: Option<String>,
    pub text: Option<String>,
    pub inline_data: Option<Blob>,
    pub file_data: Option<FileData>,
}

/// Inline binary data carried by a part.
#[derive(Debug, PartialEq)]
pub struct Blob {
    pub mime_type: String,
    pub data: String,
}

/// A file reference carried by a part.
#[derive(Debug, PartialEq)]
pub struct FileData {
    pub mime_type: String,
    pub file_uri: String,
}

/// A service-reported error carried inside an otherwise well-formed body.
#[derive(Debug, PartialEq)]
pub struct ApiError {
    pub code: u16,
    pub message: String,
    pub status: String,
}

} // verus!
