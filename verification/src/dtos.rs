//! Request and response shapes: what clients send to the workflow and
//! what the transcription service exchanges with it.

use vstd::prelude::*;

verus! {

/// Body of a path-based deletion request.
pub struct DeleteRequest {
    pub path: String,
}

/// Query parameter of a listing or upload: an optional `YYYY-MM-DD` date.
pub struct DateFilter {
    pub date: Option<String>,
}

/// Body of a recording update: the group to assign, or none.
pub struct UpdateRecordingRequest {
    pub group_id: Option<u64>,
}

/// The request sent to the transcription service.
pub struct GenerateContentRequest {
    pub contents: Vec<Content>,
}

/// One content block of a transcription request.
pub struct Content {
    pub parts: Vec<Part>,
}

/// One part of a content block: the instruction text, or the inline audio
/// data.
pub enum Part {
    Text { text: String },
    InlineData { inline_data: InlineData },
}

/// Inline data of a request part: a mime type and base64-encoded bytes.
pub struct InlineData {
    pub mime_type: String,
    pub data: String,
}

/// The response of the transcription service.
pub struct GenerateContentResponse {
    pub candidates: Option<Vec<Candidate>>,
}

/// One candidate answer.
pub struct Candidate {
    pub content: CandidateContent,
}

/// The content of a candidate answer.
pub struct CandidateContent {
    pub parts: Vec<CandidatePart>,
}

/// One part of a candidate answer; the text may be absent.
pub struct CandidatePart {
    pub text: Option<String>,
}

} // verus!
