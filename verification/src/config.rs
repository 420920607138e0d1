//! Persisted user settings: the chosen visual theme and the terminal
//! command used for the "open in terminal" action.
//!
//! Loading and saving the settings file is the caller's business; a
//! malformed or missing file falls back to these defaults.

use vstd::prelude::*;

verus! {

/// The user settings.
pub struct Config {
    /// Name of the visual theme to apply.
    pub style_name: String,
    /// Command of the terminal application to launch in a package's
    /// directory; empty when none is configured.
    pub terminal_app: String,
}

impl Default for Config {
    /// The defaults: the standard theme, and no terminal configured.
    fn default() -> (c: Config)
        ensures
            c.style_name@ == "crates.io"@,
            c.terminal_app@ == Seq::<char>::empty(),
    {
        Config { style_name: "crates.io".to_owned(), terminal_app: String::new() }
    }
}

} // verus!
