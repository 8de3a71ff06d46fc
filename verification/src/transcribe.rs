//! The transcription client's verified half: building the request,
//! picking the text out of the response, stripping code-fence wrapping,
//! and parsing the structured payload.

use vstd::prelude::*;
use vstd::string::*;
use crate::dtos::{Candidate, Content, GenerateContentRequest, GenerateContentResponse,
    InlineData, Part};
use crate::errors::TranscribeError;
use crate::paths::{spec_has_prefix, str_has_prefix};
use crate::records::Transcription;

verus! {

/// The fixed instruction sent with every transcription request.
pub open spec fn spec_instruction() -> Seq<char> {
    "Transcribe the following audio. Then, provide a short, clean, and descriptive title (max 6 words) summarizing the content. Return ONLY a raw JSON object (no markdown formatting) with the following structure:\n{\n  \"title\": \"Your Title\",\n  \"transcript\": \"Full Transcription\"\n}"@
}

/// Spells the fixed instruction.
pub fn instruction() -> (r: String)
    ensures
        r@ == spec_instruction(),
{
    String::from_str(
        "Transcribe the following audio. Then, provide a short, clean, and descriptive title (max 6 words) summarizing the content. Return ONLY a raw JSON object (no markdown formatting) with the following structure:\n{\n  \"title\": \"Your Title\",\n  \"transcript\": \"Full Transcription\"\n}",
    )
}

/// The base64 encoding of a byte sequence, as the standard padded
/// alphabet spells it.
pub uninterp spec fn base64_of(bytes: Seq<u8>) -> Seq<char>;

/// Relies on base64's `STANDARD` engine via `Engine::encode`: the
/// encoding is a function of the bytes alone, four characters for every
/// three bytes, rounded up by padding. `encode` panics when that length
/// overflows `usize`, so the input is kept well under that.
#[verifier::external_body]
fn base64_encode(bytes: &Vec<u8>) -> (r: String)
    requires
        bytes@.len() < usize::MAX / 4,
    ensures
        r@ == base64_of(bytes@),
        r@.len() == 4 * ((bytes@.len() + 2) / 3),
{
    base64::Engine::encode(&base64::engine::general_purpose::STANDARD, bytes)
}

/// Builds the transcription request for an audio blob: one content block
/// holding the fixed instruction and the inline audio, base64-encoded
/// under mime type `audio/webm`.
pub fn build_request(audio: &Vec<u8>) -> (req: GenerateContentRequest)
    requires
        audio@.len() < usize::MAX / 4,
    ensures
        req.contents@.len() == 1,
        req.contents@[0].parts@.len() == 2,
        (req.contents@[0].parts@[0] matches Part::Text { text } && text@ == spec_instruction()),
        (req.contents@[0].parts@[1] matches Part::InlineData { inline_data }
            && inline_data.mime_type@ == "audio/webm"@ && inline_data.data@ == base64_of(audio@)),
{
    let data = base64_encode(audio);
    let mut parts: Vec<Part> = Vec::new();
    parts.push(Part::Text { text: instruction() });
    parts.push(
        Part::InlineData {
            inline_data: InlineData { mime_type: String::from_str("audio/webm"), data },
        },
    );
    let mut contents: Vec<Content> = Vec::new();
    contents.push(Content { parts });
    GenerateContentRequest { contents }
}

/// Checks that a transcription credential is configured; without one,
/// every transcription attempt fails with `MissingCredential`.
pub fn require_credential(key: Option<String>) -> (r: Result<String, TranscribeError>)
    ensures
        match r {
            Ok(k) => key is Some && k == key->0,
            Err(e) => e is MissingCredential && key is None,
        },
{
    match key {
        Some(k) => Ok(k),
        None => Err(TranscribeError::MissingCredential),
    }
}

/// Turns the service's HTTP outcome into the client's: a non-success
/// status fails with `ApiError`, propagating the response body for
/// diagnostics.
pub fn check_api_status(success: bool, body: String) -> (r: Result<(), TranscribeError>)
    ensures
        match r {
            Ok(()) => success,
            Err(e) => !success && (e matches TranscribeError::ApiError(b) && b@ == body@),
        },
{
    if success {
        Ok(())
    } else {
        Err(TranscribeError::ApiError(body))
    }
}

/// The text of the first part of the first candidate, when all three are
/// present.
pub open spec fn spec_first_text(resp: GenerateContentResponse) -> Option<Seq<char>> {
    match resp.candidates {
        Some(cands) => if cands@.len() > 0 && cands@[0].content.parts@.len() > 0 {
            match cands@[0].content.parts@[0].text {
                Some(t) => Some(t@),
                None => None,
            }
        } else {
            None
        },
        None => None,
    }
}

/// Picks the raw transcription text out of a response: the text of the
/// first part of the first candidate. A response with no candidate, no
/// part, or no text fails with `EmptyResponse`.
pub fn first_candidate_text(resp: &GenerateContentResponse) -> (r: Result<String, TranscribeError>)
    ensures
        match r {
            Ok(t) => spec_first_text(*resp) == Some(t@),
            Err(e) => e is EmptyResponse && spec_first_text(*resp) is None,
        },
{
    match &resp.candidates {
        Some(cands) => {
            if cands.len() > 0 {
                let first = &cands[0];
                if first.content.parts.len() > 0 {
                    match &first.content.parts[0].text {
                        Some(t) => Ok(t.clone()),
                        None => Err(TranscribeError::EmptyResponse),
                    }
                } else {
                    Err(TranscribeError::EmptyResponse)
                }
            } else {
                Err(TranscribeError::EmptyResponse)
            }
        },
        None => Err(TranscribeError::EmptyResponse),
    }
}

/// ASCII whitespace, as trimmed from the edges of a response.
pub open spec fn spec_is_space(c: char) -> bool {
    c == ' ' || c == '\t' || c == '\n' || c == '\r'
}

/// `s` without leading whitespace.
pub open spec fn spec_trim_start(s: Seq<char>) -> Seq<char>
    decreases s.len(),
{
    if s.len() > 0 && spec_is_space(s[0]) {
        spec_trim_start(s.drop_first())
    } else {
        s
    }
}

/// `s` without trailing whitespace.
pub open spec fn spec_trim_end(s: Seq<char>) -> Seq<char>
    decreases s.len(),
{
    if s.len() > 0 && spec_is_space(s.last()) {
        spec_trim_end(s.drop_last())
    } else {
        s
    }
}

/// `s` without leading and trailing whitespace.
pub open spec fn spec_trim(s: Seq<char>) -> Seq<char> {
    spec_trim_end(spec_trim_start(s))
}

/// `s` without one leading code fence: a ```` ```json ```` marker, or a
/// bare ```` ``` ````.
pub open spec fn spec_strip_fence_start(s: Seq<char>) -> Seq<char> {
    if spec_has_prefix(s, "```json"@) {
        s.skip(7)
    } else if spec_has_prefix(s, "```"@) {
        s.skip(3)
    } else {
        s
    }
}

/// Whether `s` ends in a code fence.
pub open spec fn spec_has_fence_end(s: Seq<char>) -> bool {
    s.len() >= 3 && s.subrange(s.len() - 3, s.len() as int) == "```"@
}

/// `s` without any number of trailing code fences.
pub open spec fn spec_strip_fence_end(s: Seq<char>) -> Seq<char>
    decreases s.len(),
{
    if spec_has_fence_end(s) {
        spec_strip_fence_end(s.take(s.len() - 3))
    } else {
        s
    }
}

/// The defensive cleaning applied to a response before parsing: trim,
/// strip a leading code fence, strip trailing code fences, trim again.
pub open spec fn spec_clean(s: Seq<char>) -> Seq<char> {
    spec_trim(spec_strip_fence_end(spec_strip_fence_start(spec_trim(s))))
}

/// Whether `c` is trimmed whitespace.
fn is_space_char(c: char) -> (r: bool)
    ensures
        r == spec_is_space(c),
{
    c == ' ' || c == '\t' || c == '\n' || c == '\r'
}

/// Trims ASCII whitespace from both edges.
fn trim_chars(s: &str) -> (r: String)
    ensures
        r@ == spec_trim(s@),
{
    let n = s.unicode_len();
    proof {
        assert(s@.skip(0) =~= s@);
    }
    let mut start: usize = 0;
    while start < n && is_space_char(s.get_char(start))
        invariant
            0 <= start <= n,
            n == s@.len(),
            spec_trim_start(s@) == spec_trim_start(s@.skip(start as int)),
            forall|j: int| 0 <= j < start ==> spec_is_space(#[trigger] s@[j]),
        decreases n - start,
    {
        proof {
            assert(s@.skip(start as int).drop_first() =~= s@.skip(start + 1));
        }
        start += 1;
    }
    proof {
        if start < n {
            assert(spec_trim_start(s@.skip(start as int)) == s@.skip(start as int));
        } else {
            assert(s@.skip(start as int) =~= Seq::<char>::empty());
        }
        assert(spec_trim_start(s@) == s@.skip(start as int));
        assert(s@.skip(start as int) =~= s@.subrange(start as int, n as int));
    }
    let mut end: usize = n;
    while end > start && is_space_char(s.get_char(end - 1))
        invariant
            start <= end <= n,
            n == s@.len(),
            spec_trim_start(s@) == s@.skip(start as int),
            spec_trim_end(s@.skip(start as int)) == spec_trim_end(
                s@.subrange(start as int, end as int),
            ),
        decreases end,
    {
        proof {
            assert(s@.subrange(start as int, end as int).drop_last() =~= s@.subrange(
                start as int,
                end - 1,
            ));
            assert(s@.subrange(start as int, end as int).last() == s@[end - 1]);
        }
        end -= 1;
    }
    proof {
        if end > start {
            assert(spec_trim_end(s@.subrange(start as int, end as int)) == s@.subrange(
                start as int,
                end as int,
            ));
        } else {
            assert(s@.subrange(start as int, end as int) =~= Seq::<char>::empty());
        }
    }
    let out = s.substring_char(start, end);
    String::from_str(out)
}

/// Strips one leading code fence.
fn strip_fence_start(s: &str) -> (r: String)
    ensures
        r@ == spec_strip_fence_start(s@),
{
    proof {
        reveal_strlit("```json");
        reveal_strlit("```");
    }
    let n = s.unicode_len();
    if str_has_prefix(s, "```json") {
        String::from_str(s.substring_char(7, n))
    } else if str_has_prefix(s, "```") {
        String::from_str(s.substring_char(3, n))
    } else {
        String::from_str(s)
    }
}

/// Strips every trailing code fence.
fn strip_fence_end(s: &str) -> (r: String)
    ensures
        r@ == spec_strip_fence_end(s@),
{
    proof {
        reveal_strlit("```");
        assert(s@.take(s@.len() as int) =~= s@);
    }
    let n = s.unicode_len();
    let mut end: usize = n;
    while end >= 3 && s.get_char(end - 3) == '`' && s.get_char(end - 2) == '`' && s.get_char(
        end - 1,
    ) == '`'
        invariant
            0 <= end <= n,
            n == s@.len(),
            spec_strip_fence_end(s@) == spec_strip_fence_end(s@.take(end as int)),
        decreases end,
    {
        proof {
            reveal_strlit("```");
            let t = s@.take(end as int);
            assert(t.len() == end);
            assert(t.subrange(t.len() - 3, t.len() as int) =~= "```"@) by {
                assert(t.subrange(t.len() - 3, t.len() as int)[0] == s@[end - 3]);
                assert(t.subrange(t.len() - 3, t.len() as int)[1] == s@[end - 2]);
                assert(t.subrange(t.len() - 3, t.len() as int)[2] == s@[end - 1]);
            }
            assert(spec_has_fence_end(t));
            assert(t.take(t.len() - 3) =~= s@.take(end - 3));
        }
        end -= 3;
    }
    proof {
        reveal_strlit("```");
        let t = s@.take(end as int);
        if end >= 3 {
            if spec_has_fence_end(t) {
                let sub = t.subrange(t.len() - 3, t.len() as int);
                assert(sub[0] == t[t.len() - 3] && sub[1] == t[t.len() - 2] && sub[2] == t[t.len()
                    - 1]);
                assert(sub[0] == '`' && sub[1] == '`' && sub[2] == '`');
                assert(s@[end - 3] == '`' && s@[end - 2] == '`' && s@[end - 1] == '`');
            }
        }
        assert(!spec_has_fence_end(t));
    }
    String::from_str(s.substring_char(0, end))
}

/// Cleans a raw response defensively before parsing: trims it, strips a
/// leading and any trailing markdown code fences, and trims again.
pub fn clean_response_text(s: &str) -> (r: String)
    ensures
        r@ == spec_clean(s@),
{
    let t1 = trim_chars(s);
    let t2 = strip_fence_start(t1.as_str());
    let t3 = strip_fence_end(t2.as_str());
    trim_chars(t3.as_str())
}

/// What the payload text parses to: nothing when it is not valid JSON,
/// otherwise its `title` and `transcript` string fields, either of which
/// may be absent.
pub uninterp spec fn spec_payload_fields(s: Seq<char>) -> Option<
    (Option<Seq<char>>, Option<Seq<char>>),
>;

/// Whether an optional owned string holds exactly an optional character
/// sequence.
pub open spec fn spec_opt_str_is(o: Option<String>, v: Option<Seq<char>>) -> bool {
    match (o, v) {
        (Some(a), Some(b)) => a@ == b,
        (None, None) => true,
        _ => false,
    }
}

/// Relies on serde_json::from_str and the `Value` accessors `get` and
/// `as_str`: whether the text is valid JSON, and what its `title` and
/// `transcript` string fields hold, depend on the text alone. Any valid
/// JSON is accepted; a missing or non-string field is reported absent.
#[verifier::external_body]
fn parse_payload(s: &str) -> (r: Option<Transcription>)
    ensures
        r is Some <==> spec_payload_fields(s@) is Some,
        r is Some ==> spec_opt_str_is(r->0.title, (spec_payload_fields(s@)->0).0)
            && spec_opt_str_is(r->0.transcript, (spec_payload_fields(s@)->0).1),
{
    let v: serde_json::Value = match serde_json::from_str(s) {
        Ok(v) => v,
        Err(_) => return None,
    };
    let title = v.get("title").and_then(|x| x.as_str()).map(|x| x.to_string());
    let transcript = v.get("transcript").and_then(|x| x.as_str()).map(|x| x.to_string());
    Some(Transcription { title, transcript })
}

/// Turns the raw text of a transcription response into the payload to
/// store: cleans any code-fence wrapping, then parses the JSON. Nothing
/// comes back when the cleaned text is not valid JSON; the job then
/// fails and the record stays pending.
pub fn payload_from_response_text(raw: &str) -> (r: Option<Transcription>)
    ensures
        r is Some <==> spec_payload_fields(spec_clean(raw@)) is Some,
        r is Some ==> spec_opt_str_is(r->0.title, (spec_payload_fields(spec_clean(raw@))->0).0)
            && spec_opt_str_is(r->0.transcript, (spec_payload_fields(spec_clean(raw@))->0).1),
{
    let cleaned = clean_response_text(raw);
    parse_payload(cleaned.as_str())
}

} // verus!
