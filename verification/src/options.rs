//! The one-shot configuration of a run.
//!
//! A [`Config`] holds the options until a run takes them. They can be
//! changed only while they are still there, and taken only once.

use vstd::prelude::*;

verus! {

/// What can be set before a run.
#[derive(Debug, Clone, Copy, PartialEq, Eq, Structural)]
pub struct InitOptions {
    /// Whether the run reports the begin and end of each task.
    pub debug: bool,
}

/// The options of a run, until the run takes them.
#[derive(Debug)]
pub struct Config {
    options: Option<InitOptions>,
}

impl View for Config {
    type V = Option<InitOptions>;

    closed spec fn view(&self) -> Option<InitOptions> {
        self.options
    }
}

impl Default for Config {
    fn default() -> (config: Config)
        ensures
            config@ == Some(InitOptions { debug: false }),
    {
        Config::new()
    }
}

impl Config {
    /// A configuration that no run has taken yet, with diagnostics off.
    pub fn new() -> (config: Config)
        ensures
            config@ == Some(InitOptions { debug: false }),
    {
        Config { options: Some(InitOptions { debug: false }) }
    }

    /// Takes the options for the one run.
    pub fn consume(&mut self) -> (options: InitOptions)
        requires
            old(self)@ is Some,
        ensures
            Some(options) == old(self)@,
            final(self)@ is None,
    {
        let options = self.options.unwrap();
        self.options = None;
        options
    }
}

/// Turns the diagnostic notes of the coming run on or off.
///
/// The options must still be there: once a run has taken them, nothing can
/// be set any more.
pub fn set_debug(config: &mut Config, debug: bool)
    requires
        old(config)@ is Some,
    ensures
        final(config)@ == Some(InitOptions { debug }),
{
    config.options = Some(InitOptions { debug });
}

/// Whether a run has taken the options, be it that it succeeded or failed.
pub fn is_initialized(config: &Config) -> (started: bool)
    ensures
        started == (config@ is None),
{
    config.options.is_none()
}

} // verus!
