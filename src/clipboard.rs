//! The system clipboard, as a capability that the history reads from and
//! writes to.
use vstd::prelude::*;

verus! {

/// Access to a system clipboard.
pub trait Clipboard {
    /// The clipboard's current text, or `None` when none became available
    /// within a short wait.
    fn paste(&self) -> Option<String>;

    /// Puts `value` on the clipboard; whether that succeeded.
    fn copy(&self, value: String) -> bool;
}

/// The clipboards that can be opened.
pub enum ClipboardType {
    X11,
}

} // verus!
