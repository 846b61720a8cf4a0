//! What the worker tells the audio thread, and how the audio thread hands resources back.

use vstd::prelude::*;

use crate::param::ParamChange;
use crate::resource::{Resource, ResourceKind};
use crate::ring::RingProducer;

verus! {

/// One command on its way to the audio thread.
pub enum Command {
    /// A parameter update.
    Param(ParamChange),
    /// Clear every stage's internal state.
    Reset,
    /// Install a prepared resource.
    Load(Resource),
    /// Empty the stage that holds this kind of resource.
    Unload(ResourceKind),
}

/// What a command asks for, without what it carries.
#[derive(Clone, Copy, Debug, PartialEq, Eq, Structural)]
pub enum CommandKind {
    /// A parameter update.
    Param,
    /// Clear every stage's internal state.
    Reset,
    /// Install a model.
    LoadNam,
    /// Install an impulse response.
    LoadIr,
    /// Empty the amp-model stage.
    UnloadNam,
    /// Empty the cabinet stage.
    UnloadIr,
}

impl CommandKind {
    /// The stage a handover is asked of, if one is.
    pub open spec fn target(self) -> Option<ResourceKind> {
        match self {
            CommandKind::LoadNam | CommandKind::UnloadNam => Some(ResourceKind::Nam),
            CommandKind::LoadIr | CommandKind::UnloadIr => Some(ResourceKind::Ir),
            _ => None,
        }
    }

    /// The stage a handover is asked of, if one is.
    pub fn handover_target(self) -> (target: Option<ResourceKind>)
        ensures
            target == self.target(),
    {
        match self {
            CommandKind::LoadNam | CommandKind::UnloadNam => Some(ResourceKind::Nam),
            CommandKind::LoadIr | CommandKind::UnloadIr => Some(ResourceKind::Ir),
            _ => None,
        }
    }
}

impl Command {
    /// What the command asks for.
    pub open spec fn asks(self) -> CommandKind {
        match self {
            Command::Param(_) => CommandKind::Param,
            Command::Reset => CommandKind::Reset,
            Command::Load(resource) => match resource.belongs_to() {
                ResourceKind::Nam => CommandKind::LoadNam,
                ResourceKind::Ir => CommandKind::LoadIr,
            },
            Command::Unload(ResourceKind::Nam) => CommandKind::UnloadNam,
            Command::Unload(ResourceKind::Ir) => CommandKind::UnloadIr,
        }
    }

    /// What the command asks for.
    pub fn kind(&self) -> (kind: CommandKind)
        ensures
            kind == self.asks(),
    {
        match self {
            Command::Param(_) => CommandKind::Param,
            Command::Reset => CommandKind::Reset,
            Command::Load(resource) => match resource.kind() {
                ResourceKind::Nam => CommandKind::LoadNam,
                ResourceKind::Ir => CommandKind::LoadIr,
            },
            Command::Unload(ResourceKind::Nam) => CommandKind::UnloadNam,
            Command::Unload(ResourceKind::Ir) => CommandKind::UnloadIr,
        }
    }
}

/// A count after `more`, as far as it goes.
pub open spec fn counted_up(count: usize, more: nat) -> usize {
    if count + more <= usize::MAX {
        (count + more) as usize
    } else {
        usize::MAX
    }
}

/// The way out for resources that stages have finished with: the return ring, and a count of how
/// many it had no room for.
pub struct RetireSink<'a> {
    /// The return ring.
    pub ring: &'a mut RingProducer<Resource>,
    /// How many resources it had no room for.
    pub rejected: usize,
}

impl<'a> RetireSink<'a> {
    /// A sink into `ring` that has rejected nothing yet.
    pub fn new(ring: &'a mut RingProducer<Resource>) -> (sink: RetireSink<'a>)
        ensures
            *sink.ring == *old(ring),
            *final(sink.ring) == *final(ring),
            sink.rejected == 0,
    {
        RetireSink { ring, rejected: 0 }
    }

    /// Sends a resource back. A full ring returns it to the caller, who keeps it.
    pub fn push(&mut self, resource: Resource) -> (result: Result<(), Resource>)
        ensures
            *final(final(self).ring) == *final(old(self).ring),
            final(self).ring.ring() == old(self).ring.ring(),
            old(self).ring.known_free() > 0 ==> result is Ok,
            result is Ok ==> final(self).ring.sent() == old(self).ring.sent().push(resource)
                && final(self).rejected == old(self).rejected && final(self).ring.known_free() + 1
                >= old(self).ring.known_free(),
            result matches Err(back) ==> back == resource && final(self).ring.sent()
                == old(self).ring.sent() && final(self).rejected == counted_up(
                old(self).rejected,
                1,
            ),
    {
        match self.ring.try_push(resource) {
            Ok(()) => Ok(()),
            Err(back) => {
                if self.rejected < usize::MAX {
                    self.rejected = self.rejected + 1;
                }
                Err(back)
            },
        }
    }

    /// How many resources the ring had no room for.
    pub fn rejected(&self) -> (n: usize)
        ensures
            n == self.rejected,
    {
        self.rejected
    }
}

} // verus!
