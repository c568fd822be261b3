//! The host engine handle.
//!
//! The window, event loop and renderer belong to the host; this type only
//! carries the configuration the game hands to it.

use vstd::prelude::*;

verus! {

/// Configuration of a running engine instance.
pub struct Engine {
    title: String,
    development_mode: bool,
}

impl Engine {
    pub closed spec fn spec_title(self) -> Seq<char> {
        self.title@
    }

    pub closed spec fn spec_development_mode(self) -> bool {
        self.development_mode
    }

    /// A new engine handle with a window title.  In development mode the
    /// host avoids stealing focus from the editor when its window opens.
    pub fn new(title: String, development_mode: bool) -> (e: Engine)
        ensures
            e.spec_title() == title@,
            e.spec_development_mode() == development_mode,
    {
        Engine { title, development_mode }
    }

    /// The window title.
    pub fn title(&self) -> (t: &String)
        ensures
            t@ == self.spec_title(),
    {
        &self.title
    }

    /// Whether the engine runs in development mode.
    pub fn development_mode(&self) -> (d: bool)
        ensures
            d == self.spec_development_mode(),
    {
        self.development_mode
    }
}

} // verus!
