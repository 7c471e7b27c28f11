use vstd::prelude::*;

verus! {

/// A JSON encoding or decoding failure, carried without being inspected.
#[verifier::external_type_specification]
#[verifier::external_body]
pub struct ExJsonError(serde_json::Error);

/// The failures the engine and its collaborators report.
#[derive(Debug)]
pub enum QuizlrError {
    Storage(String),
    Auth(String),
    LlmApi(String),
    QuizEngine(String),
    Graph(String),
    Serialization(serde_json::Error),
    Network(String),
    Crypto(String),
    Config(String),
    InvalidInput(String),
    NotFound(String),
    Unknown(String),
}

} // verus!
