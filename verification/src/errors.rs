//! The error taxonomy: configuration errors are fatal at load time;
//! navigation errors signal a malformed configuration or a caller bug and
//! fail loudly; validation errors (an empty mandatory input) are not errors
//! of these kinds but per-field flags the user corrects.

use vstd::prelude::*;

verus! {

/// A configuration could not be loaded or is structurally invalid.
#[derive(Debug, Clone)]
pub enum ParserError {
    /// The configuration file could not be read.
    FsError { filename: String },
    /// The document does not match the configuration schema.
    ParseRawError { filename: String },
    /// A root document defines no languages; at least one is required.
    NoLanguages { filename: String },
    /// A root document links to a file that is itself a root document.
    RootLinksToRoot { filename: String, linked: String },
    /// A workflow breaks a structural invariant: a missing starting
    /// section, a comma in a tag or option text, a duplicate input id or
    /// option text, or a duplicate section or endpoint name.
    InvalidWorkflow { workflow: String },
    /// A language document defines no workflow of the requested name.
    UnknownWorkflow { workflow: String },
    /// A root document defines no language for the requested locale.
    UnknownLocale { locale: String },
}

/// A navigation step could not be taken.
#[derive(Debug, Clone)]
pub enum NavigationError {
    /// A progression names a section or endpoint that does not exist.
    UnresolvedLink { link: String },
    /// The current section has no progression at the given element index.
    NoSuchProgression { index: usize },
    /// A jump targets a history index that does not exist.
    OutOfRangeJump { index: usize },
}

} // verus!
