//! Terminal output: progressive writes, the bold labels, and the idle
//! prompt indicator.
//!
//! Writing to the terminal is a side effect the verifier cannot model, so
//! the two stream writers and the flush are the only trusted items here;
//! everything above them (composing the labels, ordering the writes,
//! rendering the engine's output items) is verified code.

use vstd::prelude::*;
use vstd::string::StringExecFns;
use std::io::Write;
use crate::chars::chars_to_string;
use crate::engine::Output;
use crate::payload::render_i64;
use crate::retry::MAX_TRIES;
use crate::runstate::RunState;

verus! {

/// Relies on `std::io::Stdout`'s `Write::write_fmt` (through the `write!`
/// macro): the text goes to standard output; terminal output is best
/// effort, so write errors are ignored.
#[verifier::external_body]
fn stdout_write(text: &str) {
    let _ = write!(std::io::stdout(), "{}", text);
}

/// Relies on `std::io::Stdout`'s `Write::flush`: pending output is pushed
/// out so each fragment shows as it arrives.
#[verifier::external_body]
fn stdout_flush() {
    let _ = std::io::stdout().flush();
}

/// Relies on `std::io::Stderr`'s `Write::write_fmt` (through the `write!`
/// macro): the text goes to standard error.
#[verifier::external_body]
fn stderr_write(text: &str) {
    let _ = write!(std::io::stderr(), "{}", text);
}

/// Writes one fragment and flushes immediately.
pub fn print_and_flush(text: &str) {
    stdout_write(text);
    stdout_flush();
}

/// Writes `msg` in bold, with a line break.
pub fn print_bold(msg: &str) {
    let line = String::from_str("\x1b[1m").concat(msg).concat("\x1b[0m\n");
    stdout_write(line.as_str());
    stdout_flush();
}

/// The prompt indicator shown while waiting for input.
pub fn print_prompt() {
    print_bold("Prompt: ");
}

/// The label shown once before the first streamed content.
pub fn print_response() {
    print_bold("Response: ");
}

/// Clears the run flag and shows the blank-line idle indicator with the
/// prompt label.
pub fn finish_prompt(run: &RunState) {
    run.set_running(false);
    print_and_flush("\n\n");
    print_prompt();
}

/// Writes the bold error label and the message to standard error, then
/// concludes with the idle indicator.
pub fn print_error(run: &RunState, msg: &str) {
    let line = String::from_str("\x1b[1mError: \x1b[0m \n").concat(msg).concat("\n");
    stderr_write(line.as_str());
    finish_prompt(run);
}

/// Shows one of the engine's output items on the terminal.
pub fn render_output(run: &RunState, item: &Output) {
    match item {
        Output::Text(text) => print_and_flush(text.as_str()),
        Output::ResponseLabel => print_response(),
        Output::Error(msg) => {
            let line = String::from_str("\x1b[1mError: \x1b[0m \n").concat(msg.as_str()).concat(
                "\n",
            );
            stderr_write(line.as_str());
        },
        Output::RetryNotice(count) => {
            let count_text = chars_to_string(&render_i64(*count));
            let ceiling_text = chars_to_string(&render_i64(MAX_TRIES));
            let line = String::from_str("Server responded with a `server_error`. Trying again... (")
                .concat(count_text.as_str()).concat("/").concat(ceiling_text.as_str()).concat(
                ")\n",
            );
            stdout_write(line.as_str());
            stdout_flush();
        },
        Output::Idle => finish_prompt(run),
    }
}

} // verus!
