//! The one error type the public API returns.
use vstd::prelude::*;
use vstd::string::*;
use crate::fit::Fit;
use crate::session_model::{MessageId, Refusal};
use crate::text::{decimal, push_decimal, same_text};

verus! {

/// Why a session mutation was refused. The session is unchanged.
#[derive(Debug, Clone, PartialEq, Eq)]
pub enum SessionError {
    /// No record has this id in this session.
    UnknownMessage(MessageId),
    /// The record exists but is not in the active projection.
    NotActive(MessageId),
    /// The same id was named twice in one projection.
    Duplicate(MessageId),
    /// The projection would show a tool result whose call is not shown.
    OrphanResult {
        /// The call the result answers.
        call_id: String,
    },
    /// The projection would show a tool call whose result exists but is not
    /// shown.
    UnansweredCall {
        /// The call left hanging.
        call_id: String,
    },
}

impl View for SessionError {
    type V = Refusal;

    open spec fn view(&self) -> Refusal {
        match self {
            SessionError::UnknownMessage(id) => Refusal::Unknown(*id),
            SessionError::NotActive(id) => Refusal::NotActive(*id),
            SessionError::Duplicate(id) => Refusal::Duplicate(*id),
            SessionError::OrphanResult { call_id } => Refusal::Orphan(call_id@),
            SessionError::UnansweredCall { call_id } => Refusal::Unanswered(call_id@),
        }
    }
}

/// A refusal in words.
pub open spec fn refusal_words(r: Refusal) -> Seq<char> {
    match r {
        Refusal::Unknown(id) => "no message m"@ + decimal(id.0 as nat) + " in this session"@,
        Refusal::NotActive(id) => "message m"@ + decimal(id.0 as nat)
            + " is not in the active projection"@,
        Refusal::Duplicate(id) => "message m"@ + decimal(id.0 as nat)
            + " named twice in one projection"@,
        Refusal::Orphan(call_id) => "would show the result of tool call `"@ + call_id
            + "` without the call"@,
        Refusal::Unanswered(call_id) => "would show tool call `"@ + call_id
            + "` without its result"@,
    }
}

impl SessionError {
    /// The refusal in words.
    pub fn to_string(&self) -> (out: String)
        ensures
            out@ == refusal_words(self@),
    {
        let mut out = String::new();
        match self {
            SessionError::UnknownMessage(id) => {
                out.append("no message m");
                push_decimal(&mut out, id.0);
                out.append(" in this session");
            },
            SessionError::NotActive(id) => {
                out.append("message m");
                push_decimal(&mut out, id.0);
                out.append(" is not in the active projection");
            },
            SessionError::Duplicate(id) => {
                out.append("message m");
                push_decimal(&mut out, id.0);
                out.append(" named twice in one projection");
            },
            SessionError::OrphanResult { call_id } => {
                out.append("would show the result of tool call `");
                out.append(call_id.as_str());
                out.append("` without the call");
            },
            SessionError::UnansweredCall { call_id } => {
                out.append("would show tool call `");
                out.append(call_id.as_str());
                out.append("` without its result");
            },
        }
        assert(out@ =~= refusal_words(self@));
        out
    }
}

/// How an agent's tools are misconfigured.
#[derive(Debug, Clone, PartialEq, Eq)]
pub enum ToolConfigError {
    /// Two tools share a name.
    DuplicateName(String),
    /// A tool says nothing about what it does.
    MissingDescription(String),
    /// Tools are deferred and nothing says how to find them.
    NoSearch,
}

impl ToolConfigError {
    /// The misconfiguration in words.
    pub open spec fn words(self) -> Seq<char> {
        match self {
            ToolConfigError::DuplicateName(name) => "two tools are named `"@ + name@ + "`"@,
            ToolConfigError::MissingDescription(name) => "tool `"@ + name@
                + "` has no description"@,
            ToolConfigError::NoSearch => "tools are deferred but no tool search is set"@,
        }
    }

    /// The misconfiguration in words.
    pub fn to_string(&self) -> (out: String)
        ensures
            out@ == self.words(),
    {
        let mut out = String::new();
        match self {
            ToolConfigError::DuplicateName(name) => {
                out.append("two tools are named `");
                out.append(name.as_str());
                out.append("`");
            },
            ToolConfigError::MissingDescription(name) => {
                out.append("tool `");
                out.append(name.as_str());
                out.append("` has no description");
            },
            ToolConfigError::NoSearch => {
                out.append("tools are deferred but no tool search is set");
            },
        }
        assert(out@ =~= self.words());
        out
    }
}

/// A failure inside the engine.
#[derive(Debug, Clone, PartialEq, Eq)]
pub enum ExecError {
    /// A model must be loaded first.
    ModelNotLoaded,
    /// The conversation outgrew the context window.
    ContextOverflow(String),
    /// The backend failed, in its own words.
    Backend(String),
}

impl ExecError {
    /// The failure in words.
    pub open spec fn words(self) -> Seq<char> {
        match self {
            ExecError::ModelNotLoaded => "no model is loaded"@,
            ExecError::ContextOverflow(message) => "context overflow: "@ + message@,
            ExecError::Backend(message) => message@,
        }
    }

    /// The failure in words.
    pub fn to_string(&self) -> (out: String)
        ensures
            out@ == self.words(),
    {
        match self {
            ExecError::ModelNotLoaded => "no model is loaded".to_owned(),
            ExecError::ContextOverflow(message) => "context overflow: ".to_owned().concat(
                message.as_str(),
            ),
            ExecError::Backend(message) => message.clone(),
        }
    }
}

/// Anything that can go wrong driving the engine.
#[derive(Debug, Clone, PartialEq, Eq)]
pub enum Error {
    /// The controller loop is gone. Nothing further can be sent through this
    /// engine.
    ControllerGone,
    /// A model must be loaded before generating.
    ModelNotLoaded,
    /// The model file could not be loaded.
    Load(String),
    /// Generation failed. `code` is the engine's stable identifier for the
    /// failure, suitable for routing a caller to a specific recovery.
    Generation { code: String, message: String },
    /// The model will not run on this machine at the requested context.
    WontFit(Box<Fit>),
    /// The loaded model cannot do what was asked. Raised before anything is
    /// generated, so the conversation is untouched.
    Unsupported(String),
    /// The agent's tools are misconfigured.
    Tools(ToolConfigError),
    /// The request itself was malformed, and nothing was generated.
    InvalidRequest(String),
    /// The model generated text that did not decode into the requested type.
    Extraction {
        /// The type the caller asked for.
        wanted: String,
        /// What went wrong decoding it.
        message: String,
        /// Exactly what the model produced.
        raw: String,
    },
    /// A session mutation was refused.
    Session(SessionError),
    /// An engine-internal error surfaced verbatim.
    Exec(ExecError),
}

impl Error {
    /// The stable code of a failure.
    pub open spec fn code_of(self) -> Option<Seq<char>> {
        match self {
            Error::Generation { code, .. } => Some(code@),
            Error::WontFit(_) => Some("wont_fit"@),
            Error::Tools(_) => Some("tool_config"@),
            Error::Unsupported(_) => Some("unsupported"@),
            Error::InvalidRequest(_) => Some("invalid_request"@),
            Error::Extraction { .. } => Some("extraction_failed"@),
            _ => None,
        }
    }

    /// The failure in words.
    pub open spec fn words(self) -> Seq<char> {
        match self {
            Error::ControllerGone => "the inference controller is no longer running"@,
            Error::ModelNotLoaded => "no model is loaded"@,
            Error::Load(message) => "failed to load model: "@ + message@,
            Error::Generation { code, message } => "generation failed ["@ + code@ + "]: "@
                + message@,
            Error::WontFit(fit) => fit.words(),
            Error::Unsupported(what) => "the loaded model does not support "@ + what@,
            Error::Tools(e) => "tool configuration: "@ + e.words(),
            Error::InvalidRequest(message) => "invalid request: "@ + message@,
            Error::Extraction { wanted, message, .. } => "could not read the reply as "@
                + wanted@ + ": "@ + message@,
            Error::Session(e) => refusal_words(e@),
            Error::Exec(e) => e.words(),
        }
    }

    /// The engine's stable code for this failure, when it has one.
    ///
    /// Callers route on this rather than matching error text.
    pub fn code(&self) -> (out: Option<&str>)
        ensures
            match out {
                Some(code) => self.code_of() == Some(code@),
                None => self.code_of() is None,
            },
    {
        match self {
            Error::Generation { code, .. } => Some(code.as_str()),
            Error::WontFit(_) => Some("wont_fit"),
            Error::Tools(_) => Some("tool_config"),
            Error::Unsupported(_) => Some("unsupported"),
            Error::InvalidRequest(_) => Some("invalid_request"),
            Error::Extraction { .. } => Some("extraction_failed"),
            _ => None,
        }
    }

    /// The fit verdict, when this failure was a sizing one.
    pub fn fit(&self) -> (out: Option<&Fit>)
        ensures
            match *self {
                Error::WontFit(fit) => out == Some(&*fit),
                _ => out is None,
            },
    {
        match self {
            Error::WontFit(fit) => Some(&**fit),
            _ => None,
        }
    }

    /// Whether retrying the same request could plausibly succeed.
    ///
    /// A missing model or a dead controller will not fix itself. Most
    /// generation failures may be transient, but not a poisoned session,
    /// whose backend state is gone.
    pub fn is_retryable(&self) -> (out: bool)
        ensures
            out == (self is Generation && self->code@ != "session_poisoned"@),
    {
        match self {
            Error::Generation { code, .. } => !same_text(code.as_str(), "session_poisoned"),
            _ => false,
        }
    }

    /// The failure in words.
    pub fn to_string(&self) -> (out: String)
        ensures
            out@ == self.words(),
    {
        match self {
            Error::ControllerGone => "the inference controller is no longer running".to_owned(),
            Error::ModelNotLoaded => "no model is loaded".to_owned(),
            Error::Load(message) => "failed to load model: ".to_owned().concat(message.as_str()),
            Error::Generation { code, message } => "generation failed [".to_owned().concat(
                code.as_str(),
            ).concat("]: ").concat(message.as_str()),
            Error::WontFit(fit) => fit.to_string(),
            Error::Unsupported(what) => "the loaded model does not support ".to_owned().concat(
                what.as_str(),
            ),
            Error::Tools(e) => "tool configuration: ".to_owned().concat(e.to_string().as_str()),
            Error::InvalidRequest(message) => "invalid request: ".to_owned().concat(
                message.as_str(),
            ),
            Error::Extraction { wanted, message, .. } => "could not read the reply as ".to_owned().concat(
                wanted.as_str(),
            ).concat(": ").concat(message.as_str()),
            Error::Session(e) => e.to_string(),
            Error::Exec(e) => e.to_string(),
        }
    }
}

impl From<ExecError> for Error {
    fn from(e: ExecError) -> (out: Self) {
        Error::Exec(e)
    }
}

impl vstd::std_specs::convert::FromSpecImpl<ExecError> for Error {
    open spec fn obeys_from_spec() -> bool {
        true
    }

    open spec fn from_spec(e: ExecError) -> Self {
        Error::Exec(e)
    }
}

impl From<SessionError> for Error {
    fn from(e: SessionError) -> (out: Self) {
        Error::Session(e)
    }
}

impl vstd::std_specs::convert::FromSpecImpl<SessionError> for Error {
    open spec fn obeys_from_spec() -> bool {
        true
    }

    open spec fn from_spec(e: SessionError) -> Self {
        Error::Session(e)
    }
}

impl From<ToolConfigError> for Error {
    fn from(e: ToolConfigError) -> (out: Self) {
        Error::Tools(e)
    }
}

impl vstd::std_specs::convert::FromSpecImpl<ToolConfigError> for Error {
    open spec fn obeys_from_spec() -> bool {
        true
    }

    open spec fn from_spec(e: ToolConfigError) -> Self {
        Error::Tools(e)
    }
}

} // verus!
