use vstd::prelude::*;

verus! {

/// The error taxonomy of the snippet engine.
///
/// Every variant carries plain data, so contracts can state exactly which
/// error a function returns and with which message.  `UnknownPlaceholder`
/// holds the literal token text (angle brackets included) of a placeholder
/// that is not in the canonical spelling table; `CountMismatch` reports a
/// substitution attempt where the number of values does not equal the
/// number of placeholders.
#[derive(Debug)]
pub enum SnipsterError {
    CommandError(String),
    OutputParsingError(String),
    SerdeError(String),
    Utf8Error(String),
    IoError(String),
    PlaceHolderError(String),
    ClipboardError(String),
    UnknownPlaceholder(String),
    CountMismatch,
}

/// The one-line rendering of each error.
pub open spec fn message_text(e: SnipsterError) -> Seq<char> {
    match e {
        SnipsterError::CommandError(m) => "Command execution failed: "@ + m@,
        SnipsterError::OutputParsingError(m) => "Output parsing failed: "@ + m@,
        SnipsterError::SerdeError(m) => "Serialization or deserialization error: "@ + m@,
        SnipsterError::Utf8Error(m) => "UTF-8 conversion failed: "@ + m@,
        SnipsterError::IoError(m) => "I/O operation failed: "@ + m@,
        SnipsterError::PlaceHolderError(m) => "Placeholder parsing failed: "@ + m@,
        SnipsterError::ClipboardError(m) => "Failed to copy to clipboard: "@ + m@,
        SnipsterError::UnknownPlaceholder(raw) => "Unknown placeholder: "@ + raw@,
        SnipsterError::CountMismatch => "Mismatch in the number of placeholders and values"@,
    }
}

impl SnipsterError {
    /// Renders the error as one human-readable line.
    pub fn message(&self) -> (r: String)
        ensures
            r@ == message_text(*self),
    {
        match self {
            SnipsterError::CommandError(m) => {
                let mut s = String::from_str("Command execution failed: ");
                s.append(m.as_str());
                s
            },
            SnipsterError::OutputParsingError(m) => {
                let mut s = String::from_str("Output parsing failed: ");
                s.append(m.as_str());
                s
            },
            SnipsterError::SerdeError(m) => {
                let mut s = String::from_str("Serialization or deserialization error: ");
                s.append(m.as_str());
                s
            },
            SnipsterError::Utf8Error(m) => {
                let mut s = String::from_str("UTF-8 conversion failed: ");
                s.append(m.as_str());
                s
            },
            SnipsterError::IoError(m) => {
                let mut s = String::from_str("I/O operation failed: ");
                s.append(m.as_str());
                s
            },
            SnipsterError::PlaceHolderError(m) => {
                let mut s = String::from_str("Placeholder parsing failed: ");
                s.append(m.as_str());
                s
            },
            SnipsterError::ClipboardError(m) => {
                let mut s = String::from_str("Failed to copy to clipboard: ");
                s.append(m.as_str());
                s
            },
            SnipsterError::UnknownPlaceholder(raw) => {
                let mut s = String::from_str("Unknown placeholder: ");
                s.append(raw.as_str());
                s
            },
            SnipsterError::CountMismatch => {
                String::from_str("Mismatch in the number of placeholders and values")
            },
        }
    }
}

} // verus!
