//! What a stream plays: the paths that stand between what a stream captures
//! and what it plays, as far as they hold anything but samples.
//!
//! Rendering a block is arithmetic on the samples and is done where they are;
//! what a path holds — the command queue in front of it, the path inside it —
//! is here.

use vstd::prelude::*;

use super::CommandReceiver;

verus! {

/// The path that plays the frames it captured.
///
/// What a stream did before anything could say otherwise, and what a caller
/// chooses to go on monitoring the input.
#[derive(Debug, Clone, Copy, PartialEq, Eq, Structural)]
pub struct Passthrough;

impl Passthrough {
    /// A path that plays what it hears.
    pub fn new() -> (path: Self)
        ensures
            path == Passthrough,
    {
        Self
    }
}

impl Default for Passthrough {
    /// A path that plays what it hears.
    fn default() -> (path: Self)
        ensures
            path == Passthrough,
    {
        Self::new()
    }
}

/// A path with the command queue in front of it.
///
/// The one reader of that queue: everything waiting is dealt to `path` before
/// the block it arrived in is rendered, and a command nothing answers is
/// discarded there rather than left to accumulate.
pub struct Commanded<P> {
    commands: CommandReceiver,
    path: P,
}

impl<P> Commanded<P> {
    /// The path the commands are dealt to.
    pub closed spec fn spec_path(&self) -> P {
        self.path
    }

    /// `path`, taking what the player asks for from `commands`.
    pub fn new(commands: CommandReceiver, path: P) -> (commanded: Self)
        ensures
            commanded.spec_path() == path,
    {
        Self { commands, path }
    }

    /// The path the commands are dealt to.
    pub fn path(&self) -> (path: &P)
        ensures
            *path == self.spec_path(),
    {
        &self.path
    }

    /// The queue the commands arrive on and the path they are dealt to, both
    /// at once, as a block is rendered.
    pub fn parts(&mut self) -> (parts: (&mut CommandReceiver, &mut P))
        ensures
            *parts.1 == old(self).spec_path(),
            final(self).spec_path() == *final(parts.1),
    {
        (&mut self.commands, &mut self.path)
    }
}

} // verus!
