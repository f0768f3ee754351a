//! The operations a command line asks of a container.
use vstd::prelude::*;

verus! {

/// A parsed command line: the container to use, an optional key and the
/// operation.
pub struct Opt {
    pub container: String,
    pub key: Option<String>,
    pub cmd: Option<Command>,
}

/// The operations on a container.
pub enum Command {
    /// Store a value, given or else taken from stdin or the clipboard.
    Copy { value: Option<String> },
    /// Print the value that the key names.
    Paste,
    /// Print a table of the `n` most recent values.
    Show { n: usize },
    /// Remove the container.
    Clear,
}

/// Where the value of a `Copy` comes from.
pub enum ValueSource {
    Given(String),
    /// Nothing is piped in: read the system clipboard.
    Clipboard,
    /// Read what is piped in on stdin.
    Stdin,
}

/// The operation to run: the one given, else `Paste`.
pub fn command(cmd: Option<Command>) -> (r: Command)
    ensures
        r == match cmd {
            Some(c) => c,
            None => Command::Paste,
        },
{
    match cmd {
        Some(c) => c,
        None => Command::Paste,
    }
}

/// The source of a `Copy`'s value: the value on the command line if given;
/// else the clipboard when stdin is a terminal, and stdin when it is not.
pub fn value_source(value: Option<String>, stdin_is_terminal: bool) -> (r: ValueSource)
    ensures
        r == match value {
            Some(v) => ValueSource::Given(v),
            None => if stdin_is_terminal {
                ValueSource::Clipboard
            } else {
                ValueSource::Stdin
            },
        },
{
    match value {
        Some(v) => ValueSource::Given(v),
        None => if stdin_is_terminal {
            ValueSource::Clipboard
        } else {
            ValueSource::Stdin
        },
    }
}

} // verus!
