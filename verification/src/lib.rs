//! A verified runtime for declarative, branching questionnaire workflows.
//!
//! A workflow walks a contributor through sections of text, inputs and
//! progression choices, accumulating classification tags along the way, and
//! ends at an endpoint that either gives instructions or renders a report
//! with the collected form values interpolated and the tag trail encoded for
//! machine parsing.

mod strutil;
pub mod errors;
pub mod loader;
pub mod session;
pub mod form;
pub mod report;
pub mod tags;
pub mod parser;
