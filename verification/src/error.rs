//! The failures that the engine reports to the daemon and the command line.
use vstd::prelude::*;

verus! {

/// A failure of the engine.
#[derive(Debug, PartialEq, Eq)]
pub enum EngineError {
    Store(String),
    Fs(String),
    Capture(String),
    Restore(String),
    Index(String),
    Config(String),
    Io(String),
}

/// What a user reads of a failure: where it arose, then what happened. A
/// failure of the host system stands for itself.
pub open spec fn error_text(error: EngineError) -> Seq<char> {
    match error {
        EngineError::Store(text) => "store: "@ + text@,
        EngineError::Fs(text) => "filesystem engine: "@ + text@,
        EngineError::Capture(text) => "capture: "@ + text@,
        EngineError::Restore(text) => "restore: "@ + text@,
        EngineError::Index(text) => "index: "@ + text@,
        EngineError::Config(text) => "config: "@ + text@,
        EngineError::Io(text) => text@,
    }
}

fn prefixed(prefix: &str, text: &str) -> (r: String)
    ensures
        r@ == prefix@ + text@,
{
    let mut out = prefix.to_owned();
    out.append(text);
    out
}

impl EngineError {
    /// What a user reads of this failure.
    pub fn message(&self) -> (r: String)
        ensures
            r@ == error_text(*self),
    {
        match self {
            EngineError::Store(text) => prefixed("store: ", text.as_str()),
            EngineError::Fs(text) => prefixed("filesystem engine: ", text.as_str()),
            EngineError::Capture(text) => prefixed("capture: ", text.as_str()),
            EngineError::Restore(text) => prefixed("restore: ", text.as_str()),
            EngineError::Index(text) => prefixed("index: ", text.as_str()),
            EngineError::Config(text) => prefixed("config: ", text.as_str()),
            EngineError::Io(text) => text.clone(),
        }
    }

    /// A failure of a filesystem operation: what was tried, then the failure
    /// as the operation describes it.
    pub fn fs(context: &str, described: &str) -> (r: EngineError)
        ensures
            r matches EngineError::Fs(text) && text@ == context@ + ": "@ + described@,
    {
        let mut text = context.to_owned();
        text.append(": ");
        text.append(described);
        EngineError::Fs(text)
    }
}

} // verus!
