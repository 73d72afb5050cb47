//! A verified lexical scanner for a small dynamically-typed scripting
//! language: it converts raw source text into an ordered sequence of
//! classified tokens for later syntactic analysis.
//!
//! [`model`] defines, as one mathematical function over the source's
//! character sequence, exactly which tokens come out, on which lines, and
//! whether any lexical error is found. [`scanner`] holds the executable
//! tokenizer, proved to return precisely that. [`laws`] proves the
//! properties a consumer leans on: whitespace-only input scans to the
//! end-of-file token alone, the end-of-file token closes every scan and
//! appears nowhere else, two-character operators win over their
//! one-character prefixes, and literal payloads are exact spans of the
//! source. [`error_handler`] is the pluggable sink for diagnostics.

pub mod error_handler;
pub mod laws;
pub mod model;
pub mod scanner;

pub use error_handler::ErrorHandler;
pub use error_handler::StdErrErrorHandler;
pub use scanner::Scanner;
pub use scanner::Token;
pub use scanner::TokenInfo;
