//! What can go wrong, and how it is told.
use vstd::prelude::*;
use vstd::string::*;

use crate::text::concat2;

verus! {

/// What went wrong.
pub enum SikuError {
    Database(String),
    Io(String),
    PdfParse(String),
    Ai(String),
    Agent(String),
    ToolExecution(String),
    Translation(String),
    Research(String),
    Config(String),
    NotFound(String),
    RateLimited,
    MissingApiKey(String),
    Unknown(String),
}

/// How an error is told.
pub open spec fn told(e: SikuError) -> Seq<char> {
    match e {
        SikuError::Database(s) => "database error: "@ + s@,
        SikuError::Io(s) => "IO error: "@ + s@,
        SikuError::PdfParse(s) => "PDF parsing error: "@ + s@,
        SikuError::Ai(s) => "AI service error: "@ + s@,
        SikuError::Agent(s) => "Agent error: "@ + s@,
        SikuError::ToolExecution(s) => "tool execution error: "@ + s@,
        SikuError::Translation(s) => "translation error: "@ + s@,
        SikuError::Research(s) => "research source error: "@ + s@,
        SikuError::Config(s) => "configuration error: "@ + s@,
        SikuError::NotFound(s) => "not found: "@ + s@,
        SikuError::RateLimited => "rate limited"@,
        SikuError::MissingApiKey(s) => "API key not configured for provider "@ + s@,
        SikuError::Unknown(s) => "unknown error: "@ + s@,
    }
}

impl SikuError {
    /// How the error is told.
    pub fn to_text(&self) -> (r: String)
        ensures
            r@ == told(*self),
    {
        match self {
            SikuError::Database(s) => concat2("database error: ", s.as_str()),
            SikuError::Io(s) => concat2("IO error: ", s.as_str()),
            SikuError::PdfParse(s) => concat2("PDF parsing error: ", s.as_str()),
            SikuError::Ai(s) => concat2("AI service error: ", s.as_str()),
            SikuError::Agent(s) => concat2("Agent error: ", s.as_str()),
            SikuError::ToolExecution(s) => concat2("tool execution error: ", s.as_str()),
            SikuError::Translation(s) => concat2("translation error: ", s.as_str()),
            SikuError::Research(s) => concat2("research source error: ", s.as_str()),
            SikuError::Config(s) => concat2("configuration error: ", s.as_str()),
            SikuError::NotFound(s) => concat2("not found: ", s.as_str()),
            SikuError::RateLimited => "rate limited".to_owned(),
            SikuError::MissingApiKey(s) => concat2(
                "API key not configured for provider ",
                s.as_str(),
            ),
            SikuError::Unknown(s) => concat2("unknown error: ", s.as_str()),
        }
    }
}

} // verus!
