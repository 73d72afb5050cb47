//! Reporting of lexical errors, with the source line they were found on.
//!
//! The scanner takes any implementation of [`ErrorHandler`]; the default
//! [`StdErrErrorHandler`] writes each diagnostic to the standard error
//! stream. A handler that collects messages into a buffer is an equally
//! valid implementation (useful when checking diagnostics in tests).

use std::io::Write;
use vstd::prelude::*;

verus! {

/// A sink for scanning diagnostics. `report` is the primitive operation;
/// `error` reports a message with no position qualifier.
///
/// Emitting a diagnostic is a side effect with no promised result: nothing
/// is specified of these methods, and the scanner's own contracts do not
/// depend on what an implementation does.
pub trait ErrorHandler {
    /// Emits a message formatted as `[line <line>] Error<position>: <message>`.
    fn report(&self, line: u32, position: &str, message: &str);

    /// Reports `message` at `line` with an empty position qualifier.
    fn error(&self, line: u32, message: &str) {
        self.report(line, "", message);
    }
}

/// The default handler: writes each diagnostic to the standard error stream.
pub struct StdErrErrorHandler {}

impl ErrorHandler for StdErrErrorHandler {
    fn report(&self, line: u32, position: &str, message: &str) {
        write_stderr_line(line, position, message);
    }
}

/// Relies on `std::io::Write::write_fmt` (through `writeln!`) on
/// `std::io::Stderr`: writes one formatted line to the standard error
/// stream. A diagnostic side effect only; a failure to write is ignored,
/// as nothing is promised of it.
#[verifier::external_body]
fn write_stderr_line(line: u32, position: &str, message: &str) {
    let _ = writeln!(std::io::stderr(), "[line {}] Error{}: {}", line, position, message);
}

} // verus!
