//! User options consulted by the session logic; loading and saving them is
//! the surrounding application's business.

use vstd::prelude::*;

verus! {

/// Default capacity of the most-recently-used directory list.
pub const DEFAULT_MAX_RECENT_DIRS: u32 = 15;

/// The settings the console-session logic consults.
pub struct Options {
    max_recent_dirs: u32,
    cd_completion: bool,
    run_on_startup: bool,
    show_clock: bool,
}

impl Options {
    /// The most-recently-used directory capacity.
    pub closed spec fn max_recent_dirs_spec(&self) -> u32 {
        self.max_recent_dirs
    }

    /// Whether directory completion is enabled.
    pub closed spec fn cd_completion_spec(&self) -> bool {
        self.cd_completion
    }

    /// Whether the application registers itself to run on startup.
    pub closed spec fn run_on_startup_spec(&self) -> bool {
        self.run_on_startup
    }

    /// Whether the clock overlay is shown.
    pub closed spec fn show_clock_spec(&self) -> bool {
        self.show_clock
    }

    /// The options as first loaded when no stored value overrides them.
    pub fn init() -> (r: Options)
        ensures
            r.max_recent_dirs_spec() == DEFAULT_MAX_RECENT_DIRS,
            r.cd_completion_spec(),
            r.run_on_startup_spec(),
            !r.show_clock_spec(),
    {
        Options {
            max_recent_dirs: DEFAULT_MAX_RECENT_DIRS,
            cd_completion: true,
            run_on_startup: true,
            show_clock: false,
        }
    }

    pub fn max_recent_dirs(&self) -> (r: u32)
        ensures
            r == self.max_recent_dirs_spec(),
    {
        self.max_recent_dirs
    }

    pub fn set_max_recent_dirs(&mut self, value: u32)
        ensures
            final(self).max_recent_dirs_spec() == value,
            final(self).cd_completion_spec() == old(self).cd_completion_spec(),
            final(self).run_on_startup_spec() == old(self).run_on_startup_spec(),
            final(self).show_clock_spec() == old(self).show_clock_spec(),
    {
        self.max_recent_dirs = value;
    }

    pub fn cd_completion(&self) -> (r: bool)
        ensures
            r == self.cd_completion_spec(),
    {
        self.cd_completion
    }

    pub fn set_cd_completion(&mut self, value: bool)
        ensures
            final(self).cd_completion_spec() == value,
            final(self).max_recent_dirs_spec() == old(self).max_recent_dirs_spec(),
            final(self).run_on_startup_spec() == old(self).run_on_startup_spec(),
            final(self).show_clock_spec() == old(self).show_clock_spec(),
    {
        self.cd_completion = value;
    }

    pub fn run_on_startup(&self) -> (r: bool)
        ensures
            r == self.run_on_startup_spec(),
    {
        self.run_on_startup
    }

    pub fn set_run_on_startup(&mut self, value: bool)
        ensures
            final(self).run_on_startup_spec() == value,
            final(self).max_recent_dirs_spec() == old(self).max_recent_dirs_spec(),
            final(self).cd_completion_spec() == old(self).cd_completion_spec(),
            final(self).show_clock_spec() == old(self).show_clock_spec(),
    {
        self.run_on_startup = value;
    }

    pub fn show_clock(&self) -> (r: bool)
        ensures
            r == self.show_clock_spec(),
    {
        self.show_clock
    }

    pub fn set_show_clock(&mut self, value: bool)
        ensures
            final(self).show_clock_spec() == value,
            final(self).max_recent_dirs_spec() == old(self).max_recent_dirs_spec(),
            final(self).cd_completion_spec() == old(self).cd_completion_spec(),
            final(self).run_on_startup_spec() == old(self).run_on_startup_spec(),
    {
        self.show_clock = value;
    }
}

} // verus!
