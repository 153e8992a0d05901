//! Construction of the outbound request from the conversation history.
//!
//! The request is a read-only projection of the ordered turn sequence:
//! one content entry per turn, each carrying the turn's role and a
//! single text part holding the turn's content.

use vstd::prelude::*;

verus! {

/// One message of the conversation, authored by "user" or "model".
#[derive(Debug, PartialEq)]
pub struct Chat {
    pub role: String,
    pub content: String,
}

/// The outbound request body: the ordered list of content entries.
#[derive(Debug, PartialEq)]
pub struct GeminiRequest {
    pub contents: Vec<GeminiContent>,
}

/// One content entry of the request: a role and its ordered parts.
#[derive(Debug, PartialEq)]
pub struct GeminiContent {
    pub role: String,
    pub parts: Vec<GeminiPart>,
}

/// One text segment of a content entry.
#[derive(Debug, PartialEq)]
pub struct GeminiPart {
    pub text: String,
}

/// A content entry carries exactly the given turn: the same role, and a
/// single part holding the turn's text.
pub open spec fn content_matches_turn(content: GeminiContent, turn: Chat) -> bool {
    &&& content.role@ == turn.role@
    &&& content.parts@.len() == 1
    &&& content.parts@[0].text@ == turn.content@
}

/// A request carries exactly the given history: one content entry per
/// turn, in the original order, with role and text preserved.
pub open spec fn request_matches_history(request: GeminiRequest, history: Seq<Chat>) -> bool {
    &&& request.contents@.len() == history.len()
    &&& forall|i: int|
        0 <= i < history.len() ==> content_matches_turn(
            #[trigger] request.contents@[i],
            history[i],
        )
}

/// Builds the outbound request from the full ordered conversation
/// history, one content entry per turn, each with a single text part.
#[verifier::loop_isolation(false)]
pub fn convert_to_gemini_request(history: &Vec<Chat>) -> (request: GeminiRequest)
    ensures
        request_matches_history(request, history@),
{
    let mut contents: Vec<GeminiContent> = Vec::new();
    let n: usize = history.len();
    let mut i: usize = 0;
    while i < n
        invariant
            i <= n,
            contents@.len() == i,
            forall|k: int|
                0 <= k < i ==> content_matches_turn(#[trigger] contents@[k], history@[k]),
        decreases n - i,
    {
        let mut parts: Vec<GeminiPart> = Vec::new();
        parts.push(GeminiPart { text: history[i].content.clone() });
        contents.push(GeminiContent { role: history[i].role.clone(), parts });
        i = i + 1;
    }
    GeminiRequest { contents }
}

} // verus!
