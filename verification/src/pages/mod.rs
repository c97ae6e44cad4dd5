//! Pages of the panel: what each shows and how often it refreshes.
use vstd::prelude::*;

pub mod monitor;
pub mod network;

verus! {

/// A page of the panel.
pub trait Page {
    /// The text to draw, lines separated by `\n`; private-use characters are icons.
    fn display(&self) -> String;

    /// How long to wait after drawing the page.
    fn refresh_rate(&self) -> core::time::Duration;

    /// Takes new readings.
    fn update(&mut self);
}

/// What a finished command reported: whether it exited successfully, and
/// its standard output decoded as text.
pub struct CommandOutput {
    pub success: bool,
    pub stdout: String,
}

} // verus!
