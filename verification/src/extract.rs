//! Reading a value out of text.
//!
//! The schema the reply is constrained to is the one it is decoded with, so
//! the two cannot drift apart.
use vstd::prelude::*;
use vstd::string::*;
use crate::error::Error;
use crate::generation::{GrammarSpec, GrammarView};
use crate::inference::Request;
use crate::json::Json;
use crate::seqs::view_of;
use crate::text::{chars_of, string_of, trim, trimmed};

verus! {

/// Enough for a substantial object without letting a model that has started
/// repeating itself run indefinitely.
pub const DEFAULT_MAX_TOKENS: usize = 1024;

/// One prompt, one value out.
#[derive(Debug, PartialEq, Eq)]
pub struct Extract {
    text: String,
    instructions: Option<String>,
    max_tokens: Option<usize>,
    sampled: bool,
}

/// An extraction, mathematically.
pub struct ExtractView {
    pub text: Seq<char>,
    pub instructions: Option<Seq<char>>,
    pub max_tokens: Option<usize>,
    pub sampled: bool,
}

impl View for Extract {
    type V = ExtractView;

    closed spec fn view(&self) -> ExtractView {
        ExtractView {
            text: self.text@,
            instructions: view_of(self.instructions),
            max_tokens: self.max_tokens,
            sampled: self.sampled,
        }
    }
}

impl Extract {
    /// An extraction from some text.
    pub fn new(text: &str) -> (out: Self)
        ensures
            out@ == (ExtractView {
                text: text@,
                instructions: None,
                max_tokens: None,
                sampled: false,
            }),
    {
        Extract { text: text.to_owned(), instructions: None, max_tokens: None, sampled: false }
    }

    /// Replace the instruction the model is given.
    pub fn instructions(self, text: &str) -> (out: Self)
        ensures
            out@ == (ExtractView { instructions: Some(text@), ..self@ }),
    {
        let mut out = self;
        out.instructions = Some(text.to_owned());
        out
    }

    /// Alias for [`instructions`](Self::instructions), for callers who think
    /// of it as the prompt.
    pub fn prompt(self, text: &str) -> (out: Self)
        ensures
            out@ == (ExtractView { instructions: Some(text@), ..self@ }),
    {
        self.instructions(text)
    }

    /// Cap how many tokens the value may take.
    pub fn max_tokens(self, n: usize) -> (out: Self)
        ensures
            out@ == (ExtractView { max_tokens: Some(n), ..self@ }),
    {
        let mut out = self;
        out.max_tokens = Some(n);
        out
    }

    /// Sample instead of extracting deterministically.
    pub fn sampled(self) -> (out: Self)
        ensures
            out@ == (ExtractView { sampled: true, ..self@ }),
    {
        let mut out = self;
        out.sampled = true;
        out
    }

    /// What is run, given the schema of the value. The same schema the reply
    /// is decoded with, so the decoder cannot produce a shape the caller then
    /// rejects.
    pub fn request(&self, schema: Json) -> (out: Request)
        ensures
            out.text@ == self@.text,
            out.system@ == (match self@.instructions {
                Some(text) => text,
                None => "Read the text and return the requested fields as JSON. Use only what the text actually says."@,
            }),
            out.grammar@ == GrammarView::JsonSchema(schema@),
            out.max_tokens == (match self@.max_tokens {
                Some(n) => n,
                None => DEFAULT_MAX_TOKENS,
            }),
            out.greedy == !self@.sampled,
    {
        let system = match &self.instructions {
            Some(text) => text.clone(),
            None => "Read the text and return the requested fields as JSON. Use only what the text actually says.".to_owned(),
        };
        Request {
            text: self.text.clone(),
            system,
            grammar: GrammarSpec::JsonSchema(schema),
            max_tokens: self.max_tokens.unwrap_or(DEFAULT_MAX_TOKENS),
            greedy: !self.sampled,
        }
    }
}

/// The part of a reply that is decoded.
pub fn decoded_part(reply: &str) -> (out: String)
    ensures
        out@ == trimmed(reply@),
{
    string_of(trim(chars_of(reply).as_slice()).as_slice())
}

/// A reply that does not decode: the model answered, with something else than
/// was wanted. What it wrote goes along.
pub fn undecoded(wanted: &str, message: &str, reply: String) -> (out: Error)
    ensures
        out matches Error::Extraction { wanted: w, message: m, raw } && w@ == wanted@ && m@
            == message@ && raw@ == reply@,
{
    Error::Extraction { wanted: wanted.to_owned(), message: message.to_owned(), raw: reply }
}

} // verus!
