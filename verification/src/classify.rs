//! Classification of one chat turn's raw result into a single outcome.
//!
//! The pipeline is a total, deterministic order of checks: a missing
//! credential short-circuits everything; a transport failure preempts
//! parsing; a parse failure preempts interpretation; a service-reported
//! error preempts the candidate scan; a blocked safety rating preempts
//! the text scan; and only then is the first usable candidate text
//! returned, taking the last part of that candidate's part list.

use vstd::prelude::*;

use crate::gemini::{ApiError, Candidate, GeminiResponse, HarmCategory, SafetyRating};

verus! {

/// The outcome of one chat turn, as handed back to the caller.
///
/// Exactly one of these is produced per invocation; the variants are
/// mutually exclusive and exhaustive.
#[derive(Debug, Clone, PartialEq)]
pub enum Message {
    /// No API credential was resolved; no call was attempted.
    ApiKeyNotSet,
    /// The HTTP call itself failed; carries the failure description.
    RequestError(String),
    /// The body could not be deserialized; carries the parser's message.
    ApiResultParsingError(String),
    /// The service reported an error inside the body; carries its message.
    ApiError(String),
    /// A safety rating blocked the prompt; carries that rating's category.
    PromptBlocked(HarmCategory),
    /// The model answered; carries the selected text.
    Response(String),
    /// The body was well formed but held no usable text.
    EmptyResponse,
}

/// The mathematical value of a [`Message`]: the same closed set of
/// variants, with each carried string abstracted to its character
/// sequence.
pub enum Outcome {
    ApiKeyMissing,
    TransportError(Seq<char>),
    ParseError(Seq<char>),
    ApiError(Seq<char>),
    PromptBlocked(HarmCategory),
    Response(Seq<char>),
    EmptyResponse,
}

impl View for Message {
    type V = Outcome;

    open spec fn view(&self) -> Outcome {
        match self {
            Message::ApiKeyNotSet => Outcome::ApiKeyMissing,
            Message::RequestError(detail) => Outcome::TransportError(detail@),
            Message::ApiResultParsingError(detail) => Outcome::ParseError(detail@),
            Message::ApiError(detail) => Outcome::ApiError(detail@),
            Message::PromptBlocked(category) => Outcome::PromptBlocked(*category),
            Message::Response(text) => Outcome::Response(text@),
            Message::EmptyResponse => Outcome::EmptyResponse,
        }
    }
}

/// The safety ratings of a candidate; an absent list reads as empty.
pub open spec fn candidate_ratings(c: Candidate) -> Seq<SafetyRating> {
    match c.safety_ratings {
        Some(ratings) => ratings@,
        None => Seq::empty(),
    }
}

/// The first rating of the list with `blocked` set, if any.
pub open spec fn first_blocked_rating(ratings: Seq<SafetyRating>) -> Option<SafetyRating>
    decreases ratings.len(),
{
    if ratings.len() == 0 {
        None
    } else if ratings[0].blocked {
        Some(ratings[0])
    } else {
        first_blocked_rating(ratings.drop_first())
    }
}

/// The category of the first blocked rating over all candidates, in
/// candidate-major, rating-minor order, if any rating is blocked.
pub open spec fn first_blocked_category(cands: Seq<Candidate>) -> Option<HarmCategory>
    decreases cands.len(),
{
    if cands.len() == 0 {
        None
    } else {
        match first_blocked_rating(candidate_ratings(cands[0])) {
            Some(rating) => Some(rating.category),
            None => first_blocked_category(cands.drop_first()),
        }
    }
}

/// The usable text of one candidate: the text of the *last* part of its
/// part list, present only when the list is non-empty and that part
/// carries text. The last part wins by design: the final part of a
/// candidate, e.g. after thought parts, is the visible answer.
pub open spec fn candidate_text(c: Candidate) -> Option<Seq<char>> {
    if c.content.parts@.len() == 0 {
        None
    } else {
        match c.content.parts@.last().text {
            Some(text) => Some(text@),
            None => None,
        }
    }
}

/// The text of the first candidate, in order, with usable text, if any.
pub open spec fn first_candidate_text(cands: Seq<Candidate>) -> Option<Seq<char>>
    decreases cands.len(),
{
    if cands.len() == 0 {
        None
    } else {
        match candidate_text(cands[0]) {
            Some(text) => Some(text),
            None => first_candidate_text(cands.drop_first()),
        }
    }
}

/// The candidate list of a response; an absent list reads as empty.
pub open spec fn response_candidates(r: GeminiResponse) -> Seq<Candidate> {
    match r.candidates {
        Some(cands) => cands@,
        None => Seq::empty(),
    }
}

/// What classifying a deserialized response body must yield: the
/// service-reported error preempts everything; a blocked safety rating
/// preempts the text scan; the first usable candidate text is the
/// answer; and a response with none of these is empty.
pub open spec fn spec_classify_response(r: GeminiResponse) -> Outcome {
    match r.error {
        Some(err) => Outcome::ApiError(err.message@),
        None => match first_blocked_category(response_candidates(r)) {
            Some(category) => Outcome::PromptBlocked(category),
            None => match first_candidate_text(response_candidates(r)) {
                Some(text) => Outcome::Response(text),
                None => Outcome::EmptyResponse,
            },
        },
    }
}

/// What the whole turn must yield, given whether a credential was
/// resolved and the (possibly failed) transport and parse results.
pub open spec fn spec_classify(
    credential_present: bool,
    transport: Result<Result<GeminiResponse, String>, String>,
) -> Outcome {
    if !credential_present {
        Outcome::ApiKeyMissing
    } else {
        match transport {
            Err(detail) => Outcome::TransportError(detail@),
            Ok(Err(detail)) => Outcome::ParseError(detail@),
            Ok(Ok(response)) => spec_classify_response(response),
        }
    }
}

/// Classifies a deserialized response body.
#[verifier::loop_isolation(false)]
pub fn classify_response(response: &GeminiResponse) -> (m: Message)
    ensures
        m@ == spec_classify_response(*response),
{
    if let Some(err) = &response.error {
        return Message::ApiError(err.message.clone());
    }

    let cands: &Vec<Candidate> = match &response.candidates {
        Some(cands) => cands,
        None => {
            return Message::EmptyResponse;
        },
    };

    let ghost cseq: Seq<Candidate> = cands@;
    let n: usize = cands.len();

    proof {
        assert(cseq.skip(0) =~= cseq);
    }
    let mut i: usize = 0;
    while i < n
        invariant
            n == cseq.len(),
            i <= n,
            cseq == cands@,
            first_blocked_category(cseq) == first_blocked_category(cseq.skip(i as int)),
        decreases n - i,
    {
        proof {
            assert(cseq.skip(i as int)[0] == cseq[i as int]);
        }
        if let Some(ratings) = &cands[i].safety_ratings {
            let ghost rseq: Seq<SafetyRating> = ratings@;
            let rn: usize = ratings.len();
            proof {
                assert(rseq.skip(0) =~= rseq);
            }
            let mut j: usize = 0;
            while j < rn
                invariant
                    rn == rseq.len(),
                    j <= rn,
                    rseq == ratings@,
                    first_blocked_rating(rseq) == first_blocked_rating(rseq.skip(j as int)),
                decreases rn - j,
            {
                proof {
                    assert(rseq.skip(j as int)[0] == rseq[j as int]);
                }
                if ratings[j].blocked {
                    proof {
                        assert(first_blocked_rating(rseq.skip(j as int)) == Some(
                            rseq[j as int],
                        ));
                        assert(candidate_ratings(cseq.skip(i as int)[0]) == rseq);
                        assert(first_blocked_category(cseq.skip(i as int)) == Some(
                            rseq[j as int].category,
                        ));
                    }
                    return Message::PromptBlocked(ratings[j].category);
                }
                proof {
                    assert(rseq.skip(j as int).drop_first() =~= rseq.skip(j as int + 1));
                }
                j = j + 1;
            }
            proof {
                assert(rseq.skip(rn as int) =~= Seq::<SafetyRating>::empty());
                assert(candidate_ratings(cseq[i as int]) == rseq);
            }
        } else {
            proof {
                assert(candidate_ratings(cseq[i as int]) =~= Seq::<SafetyRating>::empty());
            }
        }
        proof {
            assert(first_blocked_rating(candidate_ratings(cseq[i as int])) is None);
            assert(cseq.skip(i as int).drop_first() =~= cseq.skip(i as int + 1));
        }
        i = i + 1;
    }
    proof {
        assert(cseq.skip(n as int) =~= Seq::<Candidate>::empty());
        assert(first_blocked_category(cseq) is None);
        assert(cseq.skip(0) =~= cseq);
    }

    let mut i: usize = 0;
    while i < n
        invariant
            n == cseq.len(),
            i <= n,
            cseq == cands@,
            first_blocked_category(cseq) is None,
            first_candidate_text(cseq) == first_candidate_text(cseq.skip(i as int)),
        decreases n - i,
    {
        proof {
            assert(cseq.skip(i as int)[0] == cseq[i as int]);
        }
        let parts = &cands[i].content.parts;
        if parts.len() > 0 {
            let last = &parts[parts.len() - 1];
            proof {
                assert(parts@.last() == parts@[parts@.len() - 1]);
            }
            if let Some(text) = &last.text {
                proof {
                    assert(candidate_text(cseq.skip(i as int)[0]) == Some(text@));
                    assert(first_candidate_text(cseq.skip(i as int)) == Some(text@));
                }
                return Message::Response(text.clone());
            }
        }
        proof {
            assert(candidate_text(cseq[i as int]) is None);
            assert(cseq.skip(i as int).drop_first() =~= cseq.skip(i as int + 1));
        }
        i = i + 1;
    }
    proof {
        assert(cseq.skip(n as int) =~= Seq::<Candidate>::empty());
    }

    Message::EmptyResponse
}

/// Classifies one whole chat turn.
///
/// `credential_present` says whether an API credential was resolved
/// before the call was attempted; without one the turn short-circuits
/// to [`Message::ApiKeyNotSet`] whatever else is passed. `transport` is
/// `Err` when the HTTP call itself failed, `Ok(Err)` when the body could
/// not be deserialized, and `Ok(Ok)` when a response body was parsed.
pub fn classify(
    credential_present: bool,
    transport: Result<Result<GeminiResponse, String>, String>,
) -> (m: Message)
    ensures
        m@ == spec_classify(credential_present, transport),
{
    if !credential_present {
        return Message::ApiKeyNotSet;
    }
    match transport {
        Err(detail) => Message::RequestError(detail),
        Ok(Err(detail)) => Message::ApiResultParsingError(detail),
        Ok(Ok(response)) => classify_response(&response),
    }
}

proof fn lemma_no_blocked_rating(ratings: Seq<SafetyRating>)
    requires
        forall|j: int| 0 <= j < ratings.len() ==> !(#[trigger] ratings[j]).blocked,
    ensures
        first_blocked_rating(ratings) is None,
    decreases ratings.len(),
{
    if ratings.len() != 0 {
        assert forall|j: int|
            0 <= j < ratings.drop_first().len() implies !(#[trigger] ratings.drop_first()[
        j]).blocked by {
            assert(ratings.drop_first()[j] == ratings[j + 1]);
        }
        lemma_no_blocked_rating(ratings.drop_first());
    }
}

proof fn lemma_first_blocked_rating_at(ratings: Seq<SafetyRating>, j: int)
    requires
        0 <= j < ratings.len(),
        ratings[j].blocked,
        forall|j2: int| 0 <= j2 < j ==> !(#[trigger] ratings[j2]).blocked,
    ensures
        first_blocked_rating(ratings) == Some(ratings[j]),
    decreases j,
{
    if j != 0 {
        assert(!ratings[0].blocked);
        assert forall|j2: int|
            0 <= j2 < j - 1 implies !(#[trigger] ratings.drop_first()[j2]).blocked by {
            assert(ratings.drop_first()[j2] == ratings[j2 + 1]);
        }
        assert(ratings.drop_first()[j - 1] == ratings[j]);
        lemma_first_blocked_rating_at(ratings.drop_first(), j - 1);
    }
}

proof fn lemma_no_blocked_candidate(cands: Seq<Candidate>)
    requires
        forall|i: int, j: int|
            0 <= i < cands.len() && 0 <= j < candidate_ratings(cands[i]).len() ==> !(
            #[trigger] candidate_ratings(cands[i])[j]).blocked,
    ensures
        first_blocked_category(cands) is None,
    decreases cands.len(),
{
    if cands.len() != 0 {
        lemma_no_blocked_rating(candidate_ratings(cands[0]));
        assert forall|i: int, j: int|
            0 <= i < cands.drop_first().len() && 0 <= j < candidate_ratings(
                cands.drop_first()[i],
            ).len() implies !(#[trigger] candidate_ratings(cands.drop_first()[i])[
        j]).blocked by {
            assert(cands.drop_first()[i] == cands[i + 1]);
        }
        lemma_no_blocked_candidate(cands.drop_first());
    }
}

proof fn lemma_no_candidate_text(cands: Seq<Candidate>)
    requires
        forall|i: int| 0 <= i < cands.len() ==> candidate_text(#[trigger] cands[i]) is None,
    ensures
        first_candidate_text(cands) is None,
    decreases cands.len(),
{
    if cands.len() != 0 {
        assert forall|i: int|
            0 <= i < cands.drop_first().len() implies candidate_text(
            #[trigger] cands.drop_first()[i],
        ) is None by {
            assert(cands.drop_first()[i] == cands[i + 1]);
        }
        lemma_no_candidate_text(cands.drop_first());
    }
}

proof fn lemma_first_candidate_text_at(cands: Seq<Candidate>, i: int, text: Seq<char>)
    requires
        0 <= i < cands.len(),
        candidate_text(cands[i]) == Some(text),
        forall|i2: int| 0 <= i2 < i ==> candidate_text(#[trigger] cands[i2]) is None,
    ensures
        first_candidate_text(cands) == Some(text),
    decreases i,
{
    if i != 0 {
        assert(candidate_text(cands[0]) is None);
        assert forall|i2: int|
            0 <= i2 < i - 1 implies candidate_text(#[trigger] cands.drop_first()[i2]) is None by {
            assert(cands.drop_first()[i2] == cands[i2 + 1]);
        }
        assert(cands.drop_first()[i - 1] == cands[i]);
        lemma_first_candidate_text_at(cands.drop_first(), i - 1, text);
    }
}

/// Law: a missing credential short-circuits the whole turn. Whatever
/// the transport and parse results hold, the outcome is exactly
/// `ApiKeyMissing`.
pub proof fn lemma_missing_credential_short_circuits(
    transport: Result<Result<GeminiResponse, String>, String>,
)
    ensures
        spec_classify(false, transport) == Outcome::ApiKeyMissing,
{
}

/// Law: every transport failure yields `TransportError`, and the
/// failure detail is preserved verbatim.
pub proof fn lemma_transport_failure_verbatim(detail: String)
    ensures
        spec_classify(true, Err(detail)) == Outcome::TransportError(detail@),
{
}

/// Law: every body that failed to deserialize yields `ParseError`, and
/// the parser's message is preserved verbatim.
pub proof fn lemma_parse_failure_verbatim(detail: String)
    ensures
        spec_classify(true, Ok(Err(detail))) == Outcome::ParseError(detail@),
{
}

/// Law: a service-reported error preempts all interpretation of
/// candidates. Whatever candidates the response also carries, the
/// outcome is `ApiError` with that error's message.
pub proof fn lemma_remote_error_preempts_candidates(r: GeminiResponse, err: ApiError)
    requires
        r.error == Some(err),
    ensures
        spec_classify_response(r) == Outcome::ApiError(err.message@),
{
}

/// Law: the safety scan is candidate-major, rating-minor. If the rating
/// at position `j` of candidate `i` is blocked, and no rating of an
/// earlier candidate nor an earlier rating of candidate `i` is blocked,
/// the outcome is `PromptBlocked` with exactly that rating's category.
pub proof fn lemma_blocked_scan_order(r: GeminiResponse, i: int, j: int)
    requires
        r.error is None,
        0 <= i < response_candidates(r).len(),
        0 <= j < candidate_ratings(response_candidates(r)[i]).len(),
        candidate_ratings(response_candidates(r)[i])[j].blocked,
        forall|j2: int|
            0 <= j2 < j ==> !(#[trigger] candidate_ratings(response_candidates(r)[i])[j2]).blocked,
        forall|i2: int, j2: int|
            0 <= i2 < i && 0 <= j2 < candidate_ratings(response_candidates(r)[i2]).len() ==> !(
            #[trigger] candidate_ratings(response_candidates(r)[i2])[j2]).blocked,
    ensures
        spec_classify_response(r) == Outcome::PromptBlocked(
            candidate_ratings(response_candidates(r)[i])[j].category,
        ),
    decreases i,
{
    let cands = response_candidates(r);
    if i == 0 {
        lemma_first_blocked_rating_at(candidate_ratings(cands[0]), j);
    } else {
        assert forall|j2: int|
            0 <= j2 < candidate_ratings(cands[0]).len() implies !(#[trigger] candidate_ratings(
            cands[0],
        )[j2]).blocked by {
            assert(!candidate_ratings(cands[0])[j2].blocked);
        }
        lemma_no_blocked_rating(candidate_ratings(cands[0]));
        lemma_blocked_first_in_tail(cands, i, j);
    }
}

proof fn lemma_blocked_first_in_tail(cands: Seq<Candidate>, i: int, j: int)
    requires
        1 <= i < cands.len(),
        0 <= j < candidate_ratings(cands[i]).len(),
        candidate_ratings(cands[i])[j].blocked,
        forall|j2: int|
            0 <= j2 < j ==> !(#[trigger] candidate_ratings(cands[i])[j2]).blocked,
        forall|i2: int, j2: int|
            0 <= i2 < i && 0 <= j2 < candidate_ratings(cands[i2]).len() ==> !(
            #[trigger] candidate_ratings(cands[i2])[j2]).blocked,
        first_blocked_rating(candidate_ratings(cands[0])) is None,
    ensures
        first_blocked_category(cands) == Some(candidate_ratings(cands[i])[j].category),
    decreases i,
{
    let tail = cands.drop_first();
    assert(tail[i - 1] == cands[i]);
    assert forall|i2: int, j2: int|
        0 <= i2 < i - 1 && 0 <= j2 < candidate_ratings(tail[i2]).len() implies !(
    #[trigger] candidate_ratings(tail[i2])[j2]).blocked by {
        assert(tail[i2] == cands[i2 + 1]);
    }
    if i == 1 {
        lemma_first_blocked_rating_at(candidate_ratings(tail[0]), j);
        assert(first_blocked_category(tail) == Some(candidate_ratings(cands[i])[j].category));
    } else {
        lemma_no_blocked_rating(candidate_ratings(tail[0]));
        lemma_blocked_first_in_tail(tail, i - 1, j);
    }
}

/// Law: the last part wins. If no service error and no blocked rating
/// stands in the way, and candidate `i` is the first whose part list is
/// non-empty with text in its last part, the outcome is `Response` with
/// exactly that last part's text — not the first part's.
pub proof fn lemma_last_part_wins(r: GeminiResponse, i: int, text: String)
    requires
        r.error is None,
        forall|i2: int, j2: int|
            0 <= i2 < response_candidates(r).len() && 0 <= j2 < candidate_ratings(
                response_candidates(r)[i2],
            ).len() ==> !(#[trigger] candidate_ratings(response_candidates(r)[i2])[j2]).blocked,
        0 <= i < response_candidates(r).len(),
        response_candidates(r)[i].content.parts@.len() > 0,
        response_candidates(r)[i].content.parts@.last().text == Some(text),
        forall|i2: int|
            0 <= i2 < i ==> candidate_text(#[trigger] response_candidates(r)[i2]) is None,
    ensures
        spec_classify_response(r) == Outcome::Response(text@),
{
    lemma_no_blocked_candidate(response_candidates(r));
    lemma_first_candidate_text_at(response_candidates(r), i, text@);
}

/// Law: a response without a service error, without a blocked rating,
/// and without usable text in any candidate — every part list empty or
/// its last part textless — yields `EmptyResponse`.
pub proof fn lemma_all_textless_is_empty(r: GeminiResponse)
    requires
        r.error is None,
        forall|i2: int, j2: int|
            0 <= i2 < response_candidates(r).len() && 0 <= j2 < candidate_ratings(
                response_candidates(r)[i2],
            ).len() ==> !(#[trigger] candidate_ratings(response_candidates(r)[i2])[j2]).blocked,
        forall|i2: int|
            0 <= i2 < response_candidates(r).len() ==> candidate_text(
                #[trigger] response_candidates(r)[i2],
            ) is None,
    ensures
        spec_classify_response(r) == Outcome::EmptyResponse,
{
    lemma_no_blocked_candidate(response_candidates(r));
    lemma_no_candidate_text(response_candidates(r));
}

} // verus!
