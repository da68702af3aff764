//! Requests to the Gemini model that explain compiler errors: the request
//! body, the endpoint, and the reading of the answer. Sending the request is
//! the caller's part.
use vstd::prelude::*;
use vstd::string::*;

verus! {

/// The body of a `generateContent` request.
pub struct GeminiRequest {
    pub contents: Vec<Content>,
}

/// A piece of conversation content.
pub struct Content {
    pub parts: Vec<Part>,
}

/// A text part of content.
pub struct Part {
    pub text: String,
}

/// The body of a `generateContent` answer.
pub struct GeminiResponse {
    pub candidates: Vec<Candidate>,
}

/// One candidate answer.
pub struct Candidate {
    pub content: Content,
}

/// The prompt that asks for an explanation of `error`.
pub open spec fn prompt_text(error: Seq<char>) -> Seq<char> {
    "Explain this compiler error: "@ + error
}

/// The endpoint of the model, with the API key as a query parameter.
pub open spec fn endpoint_text(key: Seq<char>) -> Seq<char> {
    "https://generativelanguage.googleapis.com/v1beta/models/gemini-pro:generateContent?key="@ + key
}

/// Whether an answer holds a first part of a first candidate.
pub open spec fn has_answer(r: GeminiResponse) -> bool {
    r.candidates@.len() > 0 && r.candidates@[0].content.parts@.len() > 0
}

/// The text of the first part of the first candidate.
pub open spec fn answer_of(r: GeminiResponse) -> Seq<char> {
    r.candidates@[0].content.parts@[0].text@
}

/// A client for the Gemini API.
pub struct GeminiClient {
    api_key: String,
}

impl GeminiClient {
    /// The API key the client sends.
    pub closed spec fn key(&self) -> Seq<char> {
        self.api_key@
    }

    /// A client that uses `api_key`.
    pub fn new(api_key: String) -> (c: GeminiClient)
        ensures
            c.key() == api_key@,
    {
        GeminiClient { api_key }
    }

    /// The URL to post requests to.
    pub fn endpoint(&self) -> (r: String)
        ensures
            r@ == endpoint_text(self.key()),
    {
        let mut url = String::from_str(
            "https://generativelanguage.googleapis.com/v1beta/models/gemini-pro:generateContent?key=",
        );
        url.append(self.api_key.as_str());
        url
    }

    /// The request that asks for an explanation of `error`: one content with
    /// one part, the prompt.
    pub fn request_for(&self, error: &str) -> (r: GeminiRequest)
        ensures
            r.contents@.len() == 1,
            r.contents@[0].parts@.len() == 1,
            r.contents@[0].parts@[0].text@ == prompt_text(error@),
    {
        let mut text = String::from_str("Explain this compiler error: ");
        text.append(error);
        let mut parts: Vec<Part> = Vec::new();
        parts.push(Part { text });
        let mut contents: Vec<Content> = Vec::new();
        contents.push(Content { parts });
        GeminiRequest { contents }
    }

    /// The explanation in an answer: the text of the first part of the first
    /// candidate, if there is one.
    pub fn answer_text(response: &GeminiResponse) -> (r: Option<String>)
        ensures
            r is Some <==> has_answer(*response),
            r matches Some(t) ==> t@ == answer_of(*response),
    {
        if response.candidates.len() == 0 {
            return None;
        }
        let first = &response.candidates[0];
        if first.content.parts.len() == 0 {
            return None;
        }
        Some(first.content.parts[0].text.clone())
    }
}

} // verus!
