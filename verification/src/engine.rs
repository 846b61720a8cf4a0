//! The audio thread's half of the engine, and the worker's half, paired.
//!
//! Every block goes through the same steps: retry an offer that is still waiting to be handed back,
//! drain commands, collect retirements, process audio, collect retirements again, publish
//! telemetry. Retirements are collected twice because two different events can park a resource in
//! one block, an install and a fade that comes to its end, and a stage has room to park only one.

use vstd::prelude::*;

use crate::chain::{
    all_stay, no_count_means_none_parked, none_parked, parked_count, staying_keeps_room, Chain,
};
use crate::chain_stage::{copies_among, copies_of, copies_offered, one_more_counts, ChainStage};
use crate::command::{Command, CommandKind, RetireSink};
use crate::math::SampleMath;
use crate::param::ParamChange;
use crate::prepare::{PrepareContext, PrepareError};
use crate::resource::{Resource, ResourceKind};
use crate::ring::{granted, largest_capacity, ring, RingConsumer, RingProducer};
use crate::sample::Sample;
use crate::stage_io::StageIo;
use crate::stages::{build_default_chain, ChainParts};
use crate::telemetry::{newest, TelemetryEntry, TelemetrySink};
use crate::telemetry_ring::{
    advanced, doubled_to, slots_for, telemetry_ring, words_after, TelemetryProducer,
    TelemetryReader,
};

verus! {

/// How many commands one block drains before it leaves the rest to the next one. Without a bound a
/// single block could be made to do any amount of work.
pub const MAX_COMMANDS_PER_BLOCK: usize = 64;

/// Free slots the return ring must have before a handover is let through: one for a slot the
/// install may displace, one for the end of the fade that follows it.
pub const RETIRE_HEADROOM_PER_OFFER: usize = 2;

/// How many readings one block can publish.
pub const TELEMETRY_SCRATCH_ENTRIES: usize = 64;

/// The ids the engine itself reports under.
#[derive(Clone, Copy, Debug, PartialEq, Eq, Structural)]
pub struct EngineIds {
    /// Reports how many blocks left commands behind.
    pub deferred_blocks: u32,
    /// Reports whether a retirement is stuck.
    pub retire_backlog: u32,
    /// Reports how many blocks were refused.
    pub rejected_blocks: u32,
}

/// Ring capacities, fixed at preparation.
#[derive(Clone, Copy, Debug, PartialEq, Eq, Structural)]
pub struct RingCapacities {
    /// The command ring.
    pub commands: usize,
    /// The return ring. [`split`] raises anything below one handover's headroom to that.
    pub retire: usize,
    /// The telemetry ring, rounded up to a power of two.
    pub telemetry: usize,
}

impl RingCapacities {
    /// The capacities an engine gets unless it asks for others.
    pub open spec fn standard() -> RingCapacities {
        RingCapacities { commands: 256, retire: 8, telemetry: 256 }
    }
}

impl Default for RingCapacities {
    fn default() -> (caps: RingCapacities)
        ensures
            caps == RingCapacities::standard(),
    {
        RingCapacities { commands: 256, retire: 8, telemetry: 256 }
    }
}

/// The audio thread's half.
pub struct AudioEngine<A: SampleMath> {
    /// The chain.
    pub chain: Chain<A>,
    /// The ids the engine itself reports under.
    pub ids: EngineIds,
    /// Commands from the worker.
    pub commands: RingConsumer<Command>,
    /// Resources on their way back to the worker.
    pub retire: RingProducer<Resource>,
    /// Readings on their way to the user interface.
    pub telemetry: TelemetryProducer,
    /// One block's readings before they are published.
    pub telemetry_scratch: Vec<TelemetryEntry>,
    /// An offer that no stage took and the return ring had no room for. Held, never dropped, and
    /// nothing is drained while it is held.
    pub stalled_offer: Option<Resource>,
    /// Whether the return ring had no room for something a stage wanted to send back.
    pub retire_backlog: bool,
    /// Blocks that left commands behind.
    pub deferred_blocks: u64,
    /// Blocks that did not fit what the chain is prepared for.
    pub rejected_blocks: u64,
}

/// The worker thread's half.
pub struct WorkerEndpoint {
    /// Commands to the audio thread.
    pub commands: RingProducer<Command>,
    /// Resources the audio thread has finished with. Whatever is taken from here is dropped on the
    /// worker's thread.
    pub retire: RingConsumer<Resource>,
    /// The engine's readings.
    pub telemetry: TelemetryReader,
}

/// A count after one more.
pub open spec fn bumped(count: u64) -> u64 {
    if count < u64::MAX {
        (count + 1) as u64
    } else {
        count
    }
}

fn bump(count: u64) -> (next: u64)
    ensures
        next == bumped(count),
{
    if count < u64::MAX {
        count + 1
    } else {
        count
    }
}

/// How many times the resource asked for is loaded by `commands`.
pub open spec fn copies_loaded(commands: Seq<Command>, kind: ResourceKind, id: int) -> nat
    decreases commands.len(),
{
    if commands.len() == 0 {
        0
    } else {
        copies_loaded(commands.drop_last(), kind, id) + match commands.last() {
            Command::Load(resource) => copies_of(resource, kind, id),
            _ => 0nat,
        }
    }
}

/// How many of `commands` ask for a handover in this stage.
pub open spec fn handovers(commands: Seq<Command>, kind: ResourceKind) -> nat
    decreases commands.len(),
{
    if commands.len() == 0 {
        0
    } else {
        handovers(commands.drop_last(), kind) + if commands.last().asks().target() == Some(kind) {
            1nat
        } else {
            0nat
        }
    }
}

/// What the drain has let through so far in this block.
#[derive(Clone, Copy, Debug, PartialEq, Eq, Structural)]
pub struct DrainGate {
    /// Whether the amp-model stage has been asked for a handover.
    pub nam_offered: bool,
    /// Whether the cabinet stage has been asked for a handover.
    pub ir_offered: bool,
    /// Return-ring slots set aside for the handovers let through.
    pub reserved: usize,
}

impl DrainGate {
    /// Nothing let through yet.
    pub open spec fn fresh() -> DrainGate {
        DrainGate { nam_offered: false, ir_offered: false, reserved: 0 }
    }

    /// What has been let through once these commands have passed.
    pub open spec fn having_let_through(commands: Seq<Command>) -> DrainGate {
        DrainGate {
            nam_offered: handovers(commands, ResourceKind::Nam) > 0,
            ir_offered: handovers(commands, ResourceKind::Ir) > 0,
            reserved: (RETIRE_HEADROOM_PER_OFFER * ((if handovers(commands, ResourceKind::Nam) > 0 {
                1int
            } else {
                0
            }) + (if handovers(commands, ResourceKind::Ir) > 0 {
                1int
            } else {
                0
            }))) as usize,
        }
    }

    /// Whether this stage has been asked for a handover.
    pub open spec fn offered(self, kind: ResourceKind) -> bool {
        match kind {
            ResourceKind::Nam => self.nam_offered,
            ResourceKind::Ir => self.ir_offered,
        }
    }

    /// Whether a command may pass. Anything but a handover always may. A handover may if it is the
    /// stage's first in this block, no retirement is stuck, and the return ring has room for
    /// everything it can cause on top of what is set aside already.
    pub open spec fn passes(self, kind: CommandKind, backlog: bool, free: nat) -> bool {
        match kind.target() {
            Some(target) => !self.offered(target) && !backlog && free >= self.reserved
                + RETIRE_HEADROOM_PER_OFFER,
            None => true,
        }
    }

    /// What has been let through after one more command.
    pub open spec fn after(self, kind: CommandKind) -> DrainGate {
        match kind.target() {
            Some(ResourceKind::Nam) => DrainGate {
                nam_offered: true,
                reserved: (self.reserved + RETIRE_HEADROOM_PER_OFFER) as usize,
                ..self
            },
            Some(ResourceKind::Ir) => DrainGate {
                ir_offered: true,
                reserved: (self.reserved + RETIRE_HEADROOM_PER_OFFER) as usize,
                ..self
            },
            None => self,
        }
    }

    /// What is set aside is what the handovers let through need.
    pub open spec fn wf(self) -> bool {
        self.reserved == (if self.nam_offered {
            RETIRE_HEADROOM_PER_OFFER as int
        } else {
            0
        }) + (if self.ir_offered {
            RETIRE_HEADROOM_PER_OFFER as int
        } else {
            0
        })
    }

    /// Decides whether a command may pass, and if so sets aside what it needs.
    pub fn let_through(&mut self, kind: CommandKind, backlog: bool, free: usize) -> (passed: bool)
        requires
            old(self).wf(),
        ensures
            final(self).wf(),
            passed == old(self).passes(kind, backlog, free as nat),
            *final(self) == if passed {
                old(self).after(kind)
            } else {
                *old(self)
            },
    {
        match kind.handover_target() {
            Some(target) => {
                let already: bool = match target {
                    ResourceKind::Nam => self.nam_offered,
                    ResourceKind::Ir => self.ir_offered,
                };
                let needed: usize = self.reserved + RETIRE_HEADROOM_PER_OFFER;
                if already || backlog || free < needed {
                    return false;
                }
                self.reserved = needed;
                match target {
                    ResourceKind::Nam => {
                        self.nam_offered = true;
                    },
                    ResourceKind::Ir => {
                        self.ir_offered = true;
                    },
                }
                true
            },
            None => true,
        }
    }
}

/// A return ring with room for one handover lets the first handover of a block through, so no
/// handover waits for ever.
pub proof fn the_gate_can_be_satisfied(kind: CommandKind, free: nat)
    requires
        free >= RETIRE_HEADROOM_PER_OFFER,
    ensures
        DrainGate::fresh().passes(kind, false, free),
{
}

/// How large a return ring is made: at least one handover's headroom, since below that no handover
/// could ever be let through.
pub open spec fn retire_capacity(wanted: usize) -> usize {
    if wanted >= RETIRE_HEADROOM_PER_OFFER {
        wanted
    } else {
        RETIRE_HEADROOM_PER_OFFER
    }
}

/// Whether these are the two halves of an engine around `chain` that has not run yet: each of the
/// three rings has one end in either half, nothing has been sent, taken, counted or published, and
/// every ring is empty.
pub open spec fn paired<A: SampleMath>(
    chain: Chain<A>,
    caps: RingCapacities,
    ids: EngineIds,
    engine: AudioEngine<A>,
    worker: WorkerEndpoint,
) -> bool {
    let slots = slots_for(caps.telemetry as nat);
    &&& engine.chain == chain
    &&& engine.ids == ids
    &&& engine.commands.ring() == worker.commands.ring()
    &&& engine.retire.ring() == worker.retire.ring()
    &&& engine.telemetry.shares(worker.telemetry)
    &&& engine.commands.taken() == Seq::<Command>::empty()
    &&& engine.commands.waiting() == Seq::<Command>::empty()
    &&& engine.retire.sent() == Seq::<Resource>::empty()
    &&& engine.retire.known_free() == granted::<Resource>(retire_capacity(caps.retire))
    &&& engine.telemetry.position() == 0
    &&& engine.telemetry.words() == Seq::new(slots, |i: int| 0u64)
    &&& engine.stalled_offer is None
    &&& engine.retire_backlog == !none_parked(chain.stages@)
    &&& engine.deferred_blocks == 0
    &&& engine.rejected_blocks == 0
    &&& worker.commands.sent() == Seq::<Command>::empty()
    &&& worker.commands.known_free() == granted::<Command>(caps.commands)
    &&& worker.commands.capacity() == granted::<Command>(caps.commands)
    &&& worker.retire.capacity() == granted::<Resource>(retire_capacity(caps.retire))
    &&& worker.retire.taken() == Seq::<Resource>::empty()
    &&& worker.retire.waiting() == Seq::<Resource>::empty()
    &&& worker.telemetry.wf()
    &&& worker.telemetry.slots() == slots
    &&& worker.telemetry.position() == 0
}

/// Pairs a chain with its rings. The first half belongs to the audio thread, the second to the
/// worker. A resource that is parked in the chain already counts as a stuck retirement until the
/// first block has had the chance to send it back.
pub fn split<A: SampleMath>(chain: Chain<A>, caps: RingCapacities, ids: EngineIds) -> (halves: (
    AudioEngine<A>,
    WorkerEndpoint,
))
    requires
        chain.wf(),
        8 * slots_for(caps.telemetry as nat) <= isize::MAX,
    ensures
        halves.0.wf(),
        paired(chain, caps, ids, halves.0, halves.1),
{
    let (command_tx, command_rx) = ring::<Command>(caps.commands);
    let retire_slots: usize = if caps.retire >= RETIRE_HEADROOM_PER_OFFER {
        caps.retire
    } else {
        RETIRE_HEADROOM_PER_OFFER
    };
    let (retire_tx, retire_rx) = ring::<Resource>(retire_slots);
    let (telemetry, reader) = telemetry_ring(caps.telemetry);
    let retire_backlog: bool = chain.holds_parked();
    let engine = AudioEngine {
        chain,
        ids,
        commands: command_rx,
        retire: retire_tx,
        telemetry,
        telemetry_scratch: blank_readings(TELEMETRY_SCRATCH_ENTRIES),
        stalled_offer: None,
        retire_backlog,
        deferred_blocks: 0,
        rejected_blocks: 0,
    };
    (engine, WorkerEndpoint { commands: command_tx, retire: retire_rx, telemetry: reader })
}

/// Builds the product's chain and pairs it with rings of the default capacities.
pub fn build_default_engine<A: SampleMath>(
    parts: ChainParts<A>,
    ids: EngineIds,
    ctx: &PrepareContext,
) -> (halves: Result<(AudioEngine<A>, WorkerEndpoint), PrepareError>)
    ensures
        halves matches Ok(both) && {
            &&& both.0.wf()
            &&& parts.builds(*ctx, both.0.chain)
            &&& full_house(both.0.chain.stages@)
            &&& none_parked(both.0.chain.stages@)
            &&& paired(both.0.chain, RingCapacities::standard(), ids, both.0, both.1)
        },
{
    let chain: Chain<A> = build_default_chain(parts, ctx)?;
    assert(slots_for(256) == 256) by {
        reveal_with_fuel(doubled_to, 10);
    }
    assert(full_house(chain.stages@)) by {
        assert(chain.stages@[2].holds() == Some(ResourceKind::Nam));
        assert(chain.stages@[3].holds() == Some(ResourceKind::Ir));
    }
    Ok(split(chain, RingCapacities::default(), ids))
}

/// Room for `count` readings.
fn blank_readings(count: usize) -> (readings: Vec<TelemetryEntry>)
    ensures
        readings@.len() == count,
{
    let mut readings: Vec<TelemetryEntry> = Vec::with_capacity(count);
    while readings.len() < count
        invariant
            readings@.len() <= count,
        decreases count - readings@.len(),
    {
        readings.push(TelemetryEntry { id: 0, value: Sample::zero() });
    }
    readings
}

/// However small a return ring is asked for, an empty one has room for a handover, so the first
/// handover of a block is let through.
pub proof fn no_return_ring_is_too_small(kind: CommandKind, wanted: usize)
    requires
        largest_capacity::<Resource>() >= RETIRE_HEADROOM_PER_OFFER,
    ensures
        DrainGate::fresh().passes(kind, false, granted::<Resource>(retire_capacity(wanted))),
{
}

impl<A: SampleMath> AudioEngine<A> {
    /// The parts are in order, and unless a retirement is stuck nothing is parked in any stage.
    pub open spec fn wf(&self) -> bool {
        &&& self.chain.wf()
        &&& self.telemetry.wf()
        &&& self.telemetry_scratch@.len() == TELEMETRY_SCRATCH_ENTRIES
        &&& !self.retire_backlog ==> none_parked(self.chain.stages@)
    }

    /// How many times the engine has the resource asked for in its care: held by a stage, waiting
    /// to be handed back, or handed back already.
    pub open spec fn custody(&self, kind: ResourceKind, id: int) -> nat {
        self.chain.copies(kind, id) + copies_offered(self.stalled_offer, kind, id) + copies_among(
            self.retire.sent(),
            kind,
            id,
        )
    }

    /// Whether `after` has the ends of the same three rings.
    pub open spec fn same_rings(&self, after: AudioEngine<A>) -> bool {
        &&& after.commands.ring() == self.commands.ring()
        &&& after.retire.ring() == self.retire.ring()
        &&& self.telemetry.same_readers(after.telemetry)
    }

    /// Whether a block is within what the chain was prepared for: no longer than the longest, and
    /// with exactly its channels. An unprepared chain has nothing to check against.
    pub open spec fn matches_preparation(&self, frames: nat, channels: nat) -> bool {
        match self.chain.context() {
            Some(ctx) => frames <= ctx.max_frames() && channels == ctx.channels(),
            None => true,
        }
    }

    /// Whether a block is within what the chain was prepared for.
    fn io_matches_preparation(&self, io: &StageIo) -> (matches: bool)
        requires
            io.wf(),
        ensures
            matches == self.matches_preparation(io.length(), io@.len()),
    {
        match self.chain.prepared_for() {
            Some(ctx) => io.frames() <= ctx.max_block_size() && io.channel_count()
                == ctx.channel_config().output_channels(),
            None => true,
        }
    }

    /// Whether `after` is this engine once it has tried to hand back an offer that no stage took.
    pub open spec fn retries_to(&self, after: AudioEngine<A>) -> bool {
        &&& after == (AudioEngine {
            stalled_offer: after.stalled_offer,
            retire: after.retire,
            ..*self
        })
        &&& match self.stalled_offer {
            Some(resource) => {
                ||| after.stalled_offer is None && after.retire.sent() == self.retire.sent().push(
                    resource,
                )
                ||| after.stalled_offer == self.stalled_offer && after.retire.sent()
                    == self.retire.sent()
            },
            None => after == *self,
        }
        &&& after.retire.ring() == self.retire.ring()
        &&& self.retire.known_free() > 0 ==> after.stalled_offer is None
        &&& forall|kind: ResourceKind, id: int| #[trigger]
            after.custody(kind, id) == self.custody(kind, id)
    }

    /// Tries once more to hand back an offer that no stage took.
    fn retry_stalled_offer(&mut self)
        requires
            old(self).wf(),
        ensures
            final(self).wf(),
            old(self).retries_to(*final(self)),
    {
        broadcast use one_more_counts;

        match self.stalled_offer.take() {
            Some(resource) => {
                match self.retire.try_push(resource) {
                    Ok(()) => {},
                    Err(back) => {
                        self.stalled_offer = Some(back);
                    },
                }
            },
            None => {},
        }
    }

    /// Whether `after` is this engine once it has dealt with what the chain left of an offer. What
    /// no stage wanted has been sent back, or, if the return ring had no room, is held.
    pub open spec fn disposes(&self, left: Option<Resource>, after: AudioEngine<A>) -> bool {
        match left {
            None => after.retire == self.retire && after.stalled_offer is None,
            Some(unwanted) => {
                ||| {
                    &&& after.retire.sent() == self.retire.sent().push(unwanted)
                    &&& after.retire.known_free() + 1 >= self.retire.known_free()
                    &&& after.stalled_offer is None
                }
                ||| {
                    &&& after.retire.sent() == self.retire.sent()
                    &&& self.retire.known_free() == 0
                    &&& after.stalled_offer == Some(unwanted)
                }
            },
        }
    }

    /// Whether `after` is this engine once it has carried out a command. A resource that a command
    /// loads is in a stage, on its way back, or held.
    pub open spec fn carries_out(&self, command: Command, after: AudioEngine<A>) -> bool {
        &&& after == (AudioEngine {
            chain: after.chain,
            retire: after.retire,
            stalled_offer: after.stalled_offer,
            ..*self
        })
        &&& after.retire.ring() == self.retire.ring()
        &&& match command {
            Command::Load(resource) => exists|left: Option<Resource>|
                {
                    &&& #[trigger] self.chain.is_offered(resource, after.chain, left)
                    &&& self.disposes(left, after)
                },
            _ => {
                &&& obeys(self.chain, command, after.chain)
                &&& after.retire == self.retire
                &&& after.stalled_offer is None
            },
        }
    }

    /// Carries out one command. A resource that no stage wants is sent straight back, or held if
    /// the return ring has no room.
    fn apply_command(&mut self, command: Command)
        requires
            old(self).chain.wf(),
            old(self).stalled_offer is None,
        ensures
            final(self).chain.wf(),
            old(self).carries_out(command, *final(self)),
            obeys(old(self).chain, command, final(self).chain),
            command.asks().target() matches Some(kind) ==> (houses(old(self).chain.stages@, kind)
                && pens_clear(old(self).chain.stages@, kind) ==> final(self).retire
                == old(self).retire && final(self).stalled_offer is None),
            forall|kind: ResourceKind|
                command.asks().target() != Some(kind) && pens_clear(old(self).chain.stages@, kind)
                    ==> #[trigger] pens_clear(final(self).chain.stages@, kind),
            forall|kind: ResourceKind, id: int| #[trigger]
                final(self).custody(kind, id) == old(self).custody(kind, id) + copies_carried(
                    command,
                    kind,
                    id,
                ),
    {
        broadcast use one_more_counts;

        let ghost stages = self.chain.stages@;
        let ghost before = *self;
        match command {
            Command::Param(change) => self.chain.apply(change),
            Command::Reset => self.chain.reset(),
            Command::Unload(target) => self.chain.unload(target),
            Command::Load(resource) => {
                let mut offer: Option<Resource> = Some(resource);
                self.chain.offer(&mut offer);
                let ghost left = offer;
                let ghost chain = self.chain;
                proof {
                    if houses(stages, resource.belongs_to()) && pens_clear(
                        stages,
                        resource.belongs_to(),
                    ) {
                        let i = choose|i: int|
                            0 <= i < stages.len() && (#[trigger] stages[i]).holds() == Some(
                                resource.belongs_to(),
                            );
                        assert(before.chain.stages@[i].welcomes(resource.belongs_to()));
                    }
                }
                match offer {
                    Some(unwanted) => {
                        match self.retire.try_push(unwanted) {
                            Ok(()) => {},
                            Err(back) => {
                                self.stalled_offer = Some(back);
                            },
                        }
                    },
                    None => {},
                }
                proof {
                    assert(before.chain.is_offered(resource, self.chain, left));
                    assert(before.disposes(left, *self));
                    assert forall|kind: ResourceKind, id: int| #[trigger]
                        self.custody(kind, id) == before.custody(kind, id) + copies_carried(
                        command,
                        kind,
                        id,
                    ) by {
                        assert(chain.copies(kind, id) + copies_offered(left, kind, id)
                            == before.chain.copies(kind, id) + copies_of(resource, kind, id));
                    }
                }
            },
        }
        proof {
            if !(command is Load) {
                assert forall|kind: ResourceKind, id: int| #[trigger]
                    self.custody(kind, id) == before.custody(kind, id) + copies_carried(
                    command,
                    kind,
                    id,
                ) by {
                    assert(self.chain.copies(kind, id) == before.chain.copies(kind, id));
                }
            }
            assert forall|kind: ResourceKind|
                command.asks().target() != Some(kind) && pens_clear(
                    stages,
                    kind,
                ) implies #[trigger] pens_clear(self.chain.stages@, kind) by {
                lemma_other_pens_stay_clear(before.chain, command, self.chain, kind);
            }
        }
    }

    /// Whether `after` is this engine once it has drained commands. With an offer waiting to be
    /// handed back it drains none. A block is deferred exactly if it leaves a command behind that
    /// it has seen, or drains none.
    pub open spec fn takes_commands_to(&self, after: AudioEngine<A>) -> bool {
        if self.stalled_offer is Some {
            after == (AudioEngine { deferred_blocks: bumped(self.deferred_blocks), ..*self })
        } else {
            &&& self.drains_to(after)
            &&& after.deferred_blocks == if after.commands.front() is Some {
                bumped(self.deferred_blocks)
            } else {
                self.deferred_blocks
            }
        }
    }

    /// Drains commands, in order, at most [`MAX_COMMANDS_PER_BLOCK`] of them and at most one
    /// handover per stage. A command that may not pass is left in the ring, and so is everything
    /// behind it. A block that leaves a command behind counts as deferred; one that empties the
    /// ring does not, however many commands that took. Nothing is drained while an offer waits to
    /// be handed back.
    fn drain_commands(&mut self)
        requires
            old(self).wf(),
        ensures
            final(self).chain.wf(),
            old(self).takes_commands_to(*final(self)),
    {
        if self.stalled_offer.is_some() {
            self.deferred_blocks = bump(self.deferred_blocks);
            return;
        }
        let ghost start = *self;
        let ghost mut drained = Seq::<Command>::empty();
        let mut gate = DrainGate { nam_offered: false, ir_offered: false, reserved: 0 };
        let mut count: usize = 0;
        proof {
            assert(self.commands.taken() =~= start.commands.taken() + drained);
            assert(drained + self.commands.waiting() =~= self.commands.waiting());
            assert(all_stay(start.chain.stages@, self.chain.stages@));
            assert forall|kind: ResourceKind|
                !start.retire_backlog implies #[trigger] pens_clear(self.chain.stages@, kind) by {}
            assert forall|kind: ResourceKind, id: int| #[trigger]
                self.custody(kind, id) == start.custody(kind, id) + copies_loaded(
                drained,
                kind,
                id,
            ) by {}
        }
        while count < MAX_COMMANDS_PER_BLOCK
            invariant
                count <= MAX_COMMANDS_PER_BLOCK,
                start == *old(self),
                start.stalled_offer is None,
                self.chain.wf(),
                *self == (AudioEngine {
                    chain: self.chain,
                    commands: self.commands,
                    retire: self.retire,
                    ..start
                }),
                drained.len() == count,
                self.commands.ring() == start.commands.ring(),
                self.commands.taken() == start.commands.taken() + drained,
                start.commands.waiting().is_prefix_of(drained + self.commands.waiting()),
                self.retire.ring() == start.retire.ring(),
                self.retire.sent().len() >= start.retire.sent().len(),
                self.retire.known_free() + (self.retire.sent().len() - start.retire.sent().len())
                    >= gate.reserved,
                self.retire.known_free() + (self.retire.sent().len() - start.retire.sent().len())
                    >= start.retire.known_free(),
                obeys_all(start.chain, drained, self.chain),
                gate.wf(),
                handovers(drained, ResourceKind::Nam) == if gate.nam_offered {
                    1nat
                } else {
                    0
                },
                handovers(drained, ResourceKind::Ir) == if gate.ir_offered {
                    1nat
                } else {
                    0
                },
                start.retire_backlog ==> !gate.nam_offered && !gate.ir_offered,
                all_stay(start.chain.stages@, self.chain.stages@),
                self.chain.context() == start.chain.context(),
                full_house(start.chain.stages@) ==> full_house(self.chain.stages@)
                    && self.retire.sent() == start.retire.sent(),
                gate == DrainGate::having_let_through(drained),
                count > 0 ==> self.commands.looks() > start.commands.looks(),
                self.commands.looks() >= start.commands.looks(),
                forall|kind: ResourceKind|
                    !start.retire_backlog && !gate.offered(kind) ==> #[trigger] pens_clear(
                        self.chain.stages@,
                        kind,
                    ),
                forall|kind: ResourceKind, id: int| #[trigger]
                    self.custody(kind, id) == start.custody(kind, id) + copies_loaded(
                        drained,
                        kind,
                        id,
                    ),
            decreases MAX_COMMANDS_PER_BLOCK - count,
        {
            let ghost round = *self;
            let kind: CommandKind = match self.commands.peek() {
                Some(command) => command.kind(),
                None => {
                    proof {
                        lemma_same_custody(start, round, *self, drained);
                        assert(drained + round.commands.waiting() =~= drained
                            + self.commands.waiting());
                    }
                    assert(start.drained_by(*self, drained));
                    return;
                },
            };
            proof {
                lemma_a_look_keeps_the_queue(
                    start.commands.waiting(),
                    drained,
                    round.commands.waiting(),
                    self.commands.waiting(),
                );
            }
            let free: usize = match kind.handover_target() {
                Some(_) => self.retire.slots(),
                None => 0,
            };
            if !gate.let_through(kind, self.retire_backlog, free) {
                self.deferred_blocks = bump(self.deferred_blocks);
                proof {
                    lemma_same_custody(start, round, *self, drained);
                }
                assert(start.drained_by(*self, drained));
                return;
            }
            let ghost seen = self.commands.waiting();
            let command: Command = match self.commands.try_pop() {
                Some(command) => command,
                None => {
                    return;
                },
            };
            let ghost chain = self.chain;
            let ghost popped = *self;
            let ghost before = drained;
            proof {
                lemma_same_custody(start, round, popped, drained);
            }
            self.apply_command(command);
            proof {
                lemma_staying_adds_up(start.chain.stages@, chain.stages@, self.chain.stages@);
                if full_house(start.chain.stages@) {
                    lemma_still_houses(chain.stages@, self.chain.stages@, ResourceKind::Nam);
                    lemma_still_houses(chain.stages@, self.chain.stages@, ResourceKind::Ir);
                }
                drained = before.push(command);
                assert(drained.drop_last() =~= before);
                assert(drained.last() == command);
                assert(obeys(chain, command, self.chain));
                assert(self.commands.taken() =~= start.commands.taken() + drained);
                assert(before + seen =~= drained + self.commands.waiting());
                assert forall|k: ResourceKind, id: int| #[trigger]
                    self.custody(k, id) == start.custody(k, id) + copies_loaded(drained, k, id) by {
                    assert(popped.custody(k, id) == start.custody(k, id) + copies_loaded(
                        before,
                        k,
                        id,
                    ));
                }
            }
            count = count + 1;
        }
        let ghost round = *self;
        let left: bool = self.commands.peek().is_some();
        if left {
            self.deferred_blocks = bump(self.deferred_blocks);
        }
        proof {
            lemma_a_look_keeps_the_queue(
                start.commands.waiting(),
                drained,
                round.commands.waiting(),
                self.commands.waiting(),
            );
            lemma_same_custody(start, round, *self, drained);
        }
        assert(start.drained_by(*self, drained));
    }

    /// Whether `after` is this engine once it has carried out exactly the commands `drained`. The
    /// commands that were known to be waiting come first, in order. It has stopped there for one of
    /// three reasons: the ring was found empty, or there is a command at the front and either that
    /// is as many as one block drains, or the command may not pass. What the handovers among them
    /// can cause has room in the return ring, as far as it has not been sent already.
    pub open spec fn drained_by(&self, after: AudioEngine<A>, drained: Seq<Command>) -> bool {
        &&& after == (AudioEngine {
            chain: after.chain,
            commands: after.commands,
            retire: after.retire,
            deferred_blocks: after.deferred_blocks,
            ..*self
        })
        &&& drained.len() <= MAX_COMMANDS_PER_BLOCK
        &&& after.commands.ring() == self.commands.ring()
        &&& after.retire.ring() == self.retire.ring()
        &&& after.commands.taken() == self.commands.taken() + drained
        &&& self.commands.waiting().is_prefix_of(drained + after.commands.waiting())
        &&& obeys_all(self.chain, drained, after.chain)
        &&& handovers(drained, ResourceKind::Nam) <= 1
        &&& handovers(drained, ResourceKind::Ir) <= 1
        &&& self.retire_backlog ==> handovers(drained, ResourceKind::Nam) == 0 && handovers(
            drained,
            ResourceKind::Ir,
        ) == 0
        &&& all_stay(self.chain.stages@, after.chain.stages@)
        &&& after.chain.context() == self.chain.context()
        &&& after.retire.sent().len() >= self.retire.sent().len()
        &&& after.retire.known_free() + (after.retire.sent().len() - self.retire.sent().len())
            >= DrainGate::having_let_through(drained).reserved
        &&& after.retire.known_free() + (after.retire.sent().len() - self.retire.sent().len())
            >= self.retire.known_free()
        &&& full_house(self.chain.stages@) ==> after.retire.sent() == self.retire.sent()
        &&& after.commands.looks() > self.commands.looks()
        &&& after.commands.found_empty() == (after.commands.front() is None)
        &&& after.commands.front() matches Some(next) ==> drained.len() == MAX_COMMANDS_PER_BLOCK
            || !DrainGate::having_let_through(drained).passes(
            next.asks(),
            self.retire_backlog,
            after.retire.known_free(),
        )
        &&& forall|kind: ResourceKind, id: int| #[trigger]
            after.custody(kind, id) == self.custody(kind, id) + copies_loaded(drained, kind, id)
    }

    /// Whether `after` is this engine once it has carried out some commands.
    pub open spec fn drains_to(&self, after: AudioEngine<A>) -> bool {
        exists|drained: Seq<Command>| #[trigger] self.drained_by(after, drained)
    }

    /// Whether `after` is this engine once its stages have been given the chance to send back what
    /// they have parked. A retirement is stuck exactly if something is left.
    pub open spec fn collects_to(&self, after: AudioEngine<A>) -> bool {
        &&& after == (AudioEngine {
            chain: after.chain,
            retire: after.retire,
            retire_backlog: after.retire_backlog,
            ..*self
        })
        &&& after.retire.ring() == self.retire.ring()
        &&& self.chain.retires_to(after.chain, self.retire.sent(), after.retire.sent())
        &&& after.retire_backlog == !none_parked(after.chain.stages@)
        &&& self.retire.known_free() >= parked_count(self.chain.stages@) ==> !after.retire_backlog
        &&& forall|kind: ResourceKind, id: int| #[trigger]
            after.custody(kind, id) == self.custody(kind, id)
    }

    /// Gives every stage the chance to send back what it has parked, and notes whether anything is
    /// left.
    fn collect_retired(&mut self)
        requires
            old(self).chain.wf(),
        ensures
            final(self).chain.wf(),
            old(self).collects_to(*final(self)),
    {
        let ghost before = *self;
        let mut sink = RetireSink::new(&mut self.retire);
        self.chain.collect_retired(&mut sink);
        let backlog: bool = sink.rejected() > 0;
        self.retire_backlog = backlog;
        proof {
            no_count_means_none_parked(self.chain.stages@);
        }
        assert forall|kind: ResourceKind, id: int| #[trigger]
            self.custody(kind, id) == before.custody(kind, id) by {
            assert(self.chain.copies(kind, id) + copies_among(self.retire.sent(), kind, id)
                == before.chain.copies(kind, id) + copies_among(before.retire.sent(), kind, id));
        }
    }

    /// What the engine publishes after a block: the chain's readings and its own, or as many of the
    /// last of them as one block can publish.
    pub open spec fn readings(&self) -> Seq<TelemetryEntry> {
        newest(
            self.chain.readings() + seq![
                TelemetryEntry {
                    id: self.ids.deferred_blocks,
                    value: Sample::nearest_to(self.deferred_blocks as nat),
                },
                TelemetryEntry {
                    id: self.ids.retire_backlog,
                    value: Sample::of_flag(self.retire_backlog),
                },
                TelemetryEntry {
                    id: self.ids.rejected_blocks,
                    value: Sample::nearest_to(self.rejected_blocks as nat),
                },
            ],
            TELEMETRY_SCRATCH_ENTRIES as nat,
        )
    }

    /// Whether `after` is this engine once it has published its readings.
    pub open spec fn publishes_to(&self, after: AudioEngine<A>) -> bool {
        &&& after == (AudioEngine {
            telemetry: after.telemetry,
            telemetry_scratch: after.telemetry_scratch,
            ..*self
        })
        &&& self.telemetry.same_readers(after.telemetry)
        &&& after.telemetry.words() == words_after(
            self.telemetry.words(),
            self.telemetry.position(),
            self.readings(),
        )
        &&& after.telemetry.position() == advanced(
            self.telemetry.position(),
            self.readings().len(),
        )
    }

    /// Publishes the readings of the chain and the engine.
    fn publish_telemetry(&mut self)
        requires
            old(self).wf(),
        ensures
            final(self).wf(),
            old(self).publishes_to(*final(self)),
    {
        let ghost start = *self;
        let ghost room = TELEMETRY_SCRATCH_ENTRIES as nat;
        let mut sink = TelemetrySink::new(self.telemetry_scratch.as_mut_slice());
        self.chain.telemetry(&mut sink);
        let ghost own = seq![
            TelemetryEntry {
                id: self.ids.deferred_blocks,
                value: Sample::nearest_to(self.deferred_blocks as nat),
            },
            TelemetryEntry {
                id: self.ids.retire_backlog,
                value: Sample::of_flag(self.retire_backlog),
            },
            TelemetryEntry {
                id: self.ids.rejected_blocks,
                value: Sample::nearest_to(self.rejected_blocks as nat),
            },
        ];
        let ghost listed = self.chain.readings();
        assert(Seq::<TelemetryEntry>::empty() + listed =~= listed);
        sink.push(
            TelemetryEntry {
                id: self.ids.deferred_blocks,
                value: Sample::from_count(self.deferred_blocks),
            },
        );
        sink.push(
            TelemetryEntry {
                id: self.ids.retire_backlog,
                value: Sample::from_flag(self.retire_backlog),
            },
        );
        sink.push(
            TelemetryEntry {
                id: self.ids.rejected_blocks,
                value: Sample::from_count(self.rejected_blocks),
            },
        );
        assert(sink@ =~= newest(listed + own, room));
        publish_all(&mut self.telemetry, &sink);
    }

    /// Whether the steps of a block that fits lead through these engines: an offer retried,
    /// commands drained, retirements collected, the block processed, retirements collected again.
    pub open spec fn steps(
        &self,
        retried: AudioEngine<A>,
        drained: AudioEngine<A>,
        ready: AudioEngine<A>,
        played: AudioEngine<A>,
        collected: AudioEngine<A>,
        input: Seq<Seq<Sample>>,
        frames: nat,
        output: Seq<Seq<Sample>>,
    ) -> bool {
        &&& self.retries_to(retried)
        &&& retried.takes_commands_to(drained)
        &&& drained.collects_to(ready)
        &&& ready.chain.processes(input, frames, output, played.chain)
        &&& played == (AudioEngine { chain: played.chain, ..ready })
        &&& played.collects_to(collected)
    }

    /// What a block that fits comes to.
    pub open spec fn plays(
        &self,
        input: Seq<Seq<Sample>>,
        frames: nat,
        output: Seq<Seq<Sample>>,
        after: AudioEngine<A>,
    ) -> bool {
        exists|
            retried: AudioEngine<A>,
            drained: AudioEngine<A>,
            ready: AudioEngine<A>,
            played: AudioEngine<A>,
            collected: AudioEngine<A>,
        |
            #[trigger] self.steps(
                retried,
                drained,
                ready,
                played,
                collected,
                input,
                frames,
                output,
            ) && collected.publishes_to(after)
    }

    /// The whole of what the audio thread does for one block.
    ///
    /// A block that is not within what the chain was prepared for is refused whole: it is left as
    /// it came, nothing is drained, and the refusal is counted and published.
    pub fn process(&mut self, io: &mut StageIo)
        requires
            old(self).wf(),
            old(io).wf(),
            old(self).chain.context() is None ==> old(self).chain.takes(
                old(io).length(),
                old(io)@.len(),
            ),
        ensures
            final(self).wf(),
            final(io).shape() == old(io).shape(),
            if old(self).matches_preparation(old(io).length(), old(io)@.len()) {
                old(self).plays(old(io)@, old(io).length(), final(io)@, *final(self))
            } else {
                &&& final(io)@ == old(io)@
                &&& (AudioEngine {
                    rejected_blocks: bumped(old(self).rejected_blocks),
                    ..*old(self)
                }).publishes_to(*final(self))
            },
            old(self).same_rings(*final(self)),
            old(self).loses_nothing(*final(self)),
    {
        if !self.io_matches_preparation(io) {
            self.rejected_blocks = bump(self.rejected_blocks);
            self.publish_telemetry();
            proof {
                let drained = Seq::<Command>::empty();
                assert(self.commands.taken() =~= old(self).commands.taken() + drained);
                assert forall|kind: ResourceKind, id: int| #[trigger]
                    self.custody(kind, id) == old(self).custody(kind, id) + copies_loaded(
                    drained,
                    kind,
                    id,
                ) by {}
                assert(old(self).accounts_for(*self, drained));
            }
            return;
        }
        self.retry_stalled_offer();
        let ghost retried = *self;
        self.drain_commands();
        let ghost drained = *self;
        proof {
            lemma_draining_stays(retried, drained);
        }
        self.collect_retired();
        let ghost ready = *self;
        proof {
            lemma_staying_adds_up(
                retried.chain.stages@,
                drained.chain.stages@,
                ready.chain.stages@,
            );
            staying_keeps_room(
                retried.chain.stages@,
                ready.chain.stages@,
                io.length(),
                io@.len(),
            );
        }
        self.chain.process(io);
        let ghost played = *self;
        self.collect_retired();
        let ghost collected = *self;
        self.publish_telemetry();
        proof {
            assert(old(self).steps(
                retried,
                drained,
                ready,
                played,
                collected,
                old(io)@,
                old(io).length(),
                io@,
            ));
            a_block_drops_no_resource(
                *old(self),
                retried,
                drained,
                ready,
                played,
                collected,
                *self,
                old(io)@,
                old(io).length(),
                io@,
            );
        }
    }

    /// Applies a parameter change at once, for a host that delivers its changes with the block they
    /// belong to. The change does what it would have done coming through the command ring.
    pub fn apply_param_direct(&mut self, change: ParamChange)
        requires
            old(self).wf(),
        ensures
            final(self).wf(),
            *final(self) == (AudioEngine { chain: final(self).chain, ..*old(self) }),
            obeys(old(self).chain, Command::Param(change), final(self).chain),
    {
        self.chain.apply(change);
    }

    /// Resets the chain at once, as a reset coming through the command ring would.
    pub fn reset_direct(&mut self)
        requires
            old(self).wf(),
        ensures
            final(self).wf(),
            *final(self) == (AudioEngine { chain: final(self).chain, ..*old(self) }),
            obeys(old(self).chain, Command::Reset, final(self).chain),
    {
        self.chain.reset();
    }

    /// The chain, for reading.
    pub fn chain(&self) -> (chain: &Chain<A>)
        ensures
            *chain == self.chain,
    {
        &self.chain
    }

    /// How many blocks left commands behind.
    pub fn deferred_blocks(&self) -> (count: u64)
        ensures
            count == self.deferred_blocks,
    {
        self.deferred_blocks
    }

    /// Whether a retirement is stuck for want of room in the return ring.
    pub fn retire_backlog(&self) -> (stuck: bool)
        ensures
            stuck == self.retire_backlog,
    {
        self.retire_backlog
    }

    /// How many blocks were refused for not fitting what the chain was prepared for.
    pub fn rejected_blocks(&self) -> (count: u64)
        ensures
            count == self.rejected_blocks,
    {
        self.rejected_blocks
    }

    /// Whether `after` has in its care exactly what this engine has and what the commands
    /// `drained`, taken from the ring in between, have loaded.
    pub open spec fn accounts_for(&self, after: AudioEngine<A>, drained: Seq<Command>) -> bool {
        &&& drained.len() <= MAX_COMMANDS_PER_BLOCK
        &&& after.commands.taken() == self.commands.taken() + drained
        &&& forall|kind: ResourceKind, id: int| #[trigger]
            after.custody(kind, id) == self.custody(kind, id) + copies_loaded(drained, kind, id)
    }

    /// Whether nothing has been dropped on the way to `after`.
    pub open spec fn loses_nothing(&self, after: AudioEngine<A>) -> bool {
        exists|drained: Seq<Command>| #[trigger] self.accounts_for(after, drained)
    }
}

proof fn lemma_draining_stays<A: SampleMath>(before: AudioEngine<A>, after: AudioEngine<A>)
    requires
        before.takes_commands_to(after),
    ensures
        all_stay(before.chain.stages@, after.chain.stages@),
        after.chain.context() == before.chain.context(),
{
    if before.stalled_offer is None {
        let drained = choose|drained: Seq<Command>| before.drained_by(after, drained);
        assert(before.drained_by(after, drained));
    }
}

/// A block drops no resource: what the engine has in its care afterwards is what it had before and
/// what the commands it drained have loaded.
pub proof fn a_block_drops_no_resource<A: SampleMath>(
    start: AudioEngine<A>,
    retried: AudioEngine<A>,
    drained: AudioEngine<A>,
    ready: AudioEngine<A>,
    played: AudioEngine<A>,
    collected: AudioEngine<A>,
    after: AudioEngine<A>,
    input: Seq<Seq<Sample>>,
    frames: nat,
    output: Seq<Seq<Sample>>,
)
    requires
        start.steps(retried, drained, ready, played, collected, input, frames, output),
        collected.publishes_to(after),
    ensures
        start.loses_nothing(after),
{
    let commands = if retried.stalled_offer is Some {
        Seq::<Command>::empty()
    } else {
        choose|commands: Seq<Command>| retried.drained_by(drained, commands)
    };
    if retried.stalled_offer is None {
        assert(retried.drained_by(drained, commands));
    } else {
        assert(drained.commands.taken() =~= retried.commands.taken() + commands);
    }
    assert forall|kind: ResourceKind, id: int| #[trigger]
        after.custody(kind, id) == start.custody(kind, id) + copies_loaded(commands, kind, id) by {
        assert(retried.custody(kind, id) == start.custody(kind, id));
        assert(drained.custody(kind, id) == retried.custody(kind, id) + copies_loaded(
            commands,
            kind,
            id,
        ));
        assert(ready.custody(kind, id) == drained.custody(kind, id));
        assert(played.chain.copies(kind, id) == ready.chain.copies(kind, id));
        assert(played.custody(kind, id) == ready.custody(kind, id));
        assert(collected.custody(kind, id) == played.custody(kind, id));
    }
    assert(start.accounts_for(after, commands));
}

/// Publishes every reading in `sink`, oldest first.
fn publish_all(telemetry: &mut TelemetryProducer, sink: &TelemetrySink<'_>)
    requires
        old(telemetry).wf(),
        sink.wf(),
    ensures
        final(telemetry).wf(),
        old(telemetry).same_readers(*final(telemetry)),
        final(telemetry).words() == words_after(
            old(telemetry).words(),
            old(telemetry).position(),
            sink@,
        ),
        final(telemetry).position() == advanced(old(telemetry).position(), sink@.len()),
{
    let count: usize = sink.len();
    let mut i: usize = 0;
    proof {
        telemetry.one_word_per_slot();
    }
    while i < count
        invariant
            i <= count,
            sink.wf(),
            count == sink@.len(),
            telemetry.wf(),
            old(telemetry).same_readers(*telemetry),
            old(telemetry).words().len() == telemetry.slots(),
            telemetry.words() == words_after(
                old(telemetry).words(),
                old(telemetry).position(),
                sink@.take(i as int),
            ),
            telemetry.position() == advanced(old(telemetry).position(), i as nat),
        decreases count - i,
    {
        let entry: TelemetryEntry = sink.entry(i);
        telemetry.push(entry);
        proof {
            assert(sink@.take(i + 1).drop_last() =~= sink@.take(i as int));
            assert(sink@.take(i + 1).last() == entry);
        }
        i = i + 1;
    }
    assert(sink@.take(count as int) =~= sink@);
}

/// A look at the front adds nothing but what is there to what is known to be waiting.
proof fn lemma_a_look_keeps_the_queue(
    known: Seq<Command>,
    drained: Seq<Command>,
    before: Seq<Command>,
    after: Seq<Command>,
)
    requires
        known.is_prefix_of(drained + before),
        before.len() > 0 ==> after == before,
    ensures
        known.is_prefix_of(drained + after),
{
    if before.len() == 0 {
        assert(drained + before =~= drained);
        assert(known =~= (drained + after).take(known.len() as int));
    }
}

/// The commands that were known to be waiting are drained in order: a drain that takes no more than
/// those takes the first of them and leaves the rest, and one that finds the ring empty has taken
/// them all.
pub proof fn commands_are_drained_in_order<A: SampleMath>(
    start: AudioEngine<A>,
    after: AudioEngine<A>,
    drained: Seq<Command>,
)
    requires
        start.drained_by(after, drained),
    ensures
        drained.len() <= start.commands.waiting().len() ==> drained
            == start.commands.waiting().take(drained.len() as int)
            && start.commands.waiting().skip(drained.len() as int).is_prefix_of(
            after.commands.waiting(),
        ),
        after.commands.found_empty() ==> start.commands.waiting().is_prefix_of(drained),
{
    let known = start.commands.waiting();
    let all = drained + after.commands.waiting();
    assert(forall|i: int| 0 <= i < known.len() ==> known[i] == all[i]);
    if drained.len() <= known.len() {
        assert(drained =~= known.take(drained.len() as int));
        let rest = known.skip(drained.len() as int);
        assert forall|i: int| 0 <= i < rest.len() implies rest[i]
            == after.commands.waiting()[i] by {
            assert(known[drained.len() + i] == all[drained.len() + i]);
        }
    }
    if after.commands.found_empty() {
        assert(all =~= drained);
    }
}

/// Every handover of a block finds its own headroom, so no more of them pass than the return ring
/// has slots for, counting those that were filled meanwhile; and one that is first in the ring
/// passes if its headroom was known to be free before and nothing was sent back since.
pub proof fn handovers_are_bounded_by_the_return_ring<A: SampleMath>(
    start: AudioEngine<A>,
    after: AudioEngine<A>,
    drained: Seq<Command>,
)
    requires
        start.drained_by(after, drained),
    ensures
        RETIRE_HEADROOM_PER_OFFER * (handovers(drained, ResourceKind::Nam) + handovers(
            drained,
            ResourceKind::Ir,
        )) <= start.retire.capacity() + (after.retire.sent().len() - start.retire.sent().len()),
        !start.retire_backlog && start.retire.known_free() >= RETIRE_HEADROOM_PER_OFFER
            && start.commands.waiting().len() > 0 && after.retire.sent() == start.retire.sent()
            ==> drained.len() > 0,
{
    after.retire.no_more_is_free_than_there_is();
    if drained.len() == 0 && start.commands.waiting().len() > 0 {
        assert((drained + after.commands.waiting())[0] == start.commands.waiting()[0]);
    }
}

/// While the worker leaves its end alone, a drain counts as deferred exactly if it leaves a command
/// in the ring, however many it took. `sent` is everything the worker has sent, and the engine
/// knows of all of it.
pub proof fn a_drain_is_deferred_exactly_if_it_leaves_commands<A: SampleMath>(
    start: AudioEngine<A>,
    after: AudioEngine<A>,
    sent: Seq<Command>,
)
    requires
        start.stalled_offer is None,
        start.takes_commands_to(after),
        start.commands.taken() + start.commands.waiting() == sent,
        (after.commands.taken() + after.commands.waiting()).is_prefix_of(sent),
    ensures
        after.deferred_blocks == if after.commands.taken().len() < sent.len() {
            bumped(start.deferred_blocks)
        } else {
            start.deferred_blocks
        },
        sent.len() - start.commands.taken().len() > MAX_COMMANDS_PER_BLOCK
            ==> after.commands.taken().len() < sent.len(),
{
    let drained = choose|drained: Seq<Command>| start.drained_by(after, drained);
    assert(start.drained_by(after, drained));
    commands_are_drained_in_order(start, after, drained);
    let known = start.commands.waiting();
    let all = drained + after.commands.waiting();
    assert(known.len() <= all.len());
    assert((after.commands.taken() + after.commands.waiting()).len() <= sent.len());
}

proof fn lemma_same_custody<A: SampleMath>(
    start: AudioEngine<A>,
    round: AudioEngine<A>,
    now: AudioEngine<A>,
    drained: Seq<Command>,
)
    requires
        now.chain == round.chain,
        now.stalled_offer == round.stalled_offer,
        now.retire.sent() == round.retire.sent(),
        forall|kind: ResourceKind, id: int| #[trigger]
            round.custody(kind, id) == start.custody(kind, id) + copies_loaded(drained, kind, id),
    ensures
        forall|kind: ResourceKind, id: int| #[trigger]
            now.custody(kind, id) == start.custody(kind, id) + copies_loaded(drained, kind, id),
{
    assert forall|kind: ResourceKind, id: int| #[trigger]
        now.custody(kind, id) == start.custody(kind, id) + copies_loaded(drained, kind, id) by {
        assert(round.custody(kind, id) == start.custody(kind, id) + copies_loaded(
            drained,
            kind,
            id,
        ));
    }
}

/// How many times a command carries the resource asked for.
pub open spec fn copies_carried(command: Command, kind: ResourceKind, id: int) -> nat {
    match command {
        Command::Load(resource) => copies_of(resource, kind, id),
        _ => 0,
    }
}

/// What carrying out a command does to a chain.
pub open spec fn obeys<A: SampleMath>(before: Chain<A>, command: Command, after: Chain<A>) -> bool {
    match command {
        Command::Param(change) => before.applies(change, after),
        Command::Reset => before.resets_to(after),
        Command::Unload(kind) => before.unloads_to(kind, after),
        Command::Load(resource) => exists|left: Option<Resource>| #[trigger]
            before.is_offered(resource, after, left),
    }
}

/// A parameter update or a reset does the same to the engine whether it is applied at once or comes
/// through the command ring.
pub proof fn the_direct_route_is_the_ring_route<A: SampleMath>(
    engine: AudioEngine<A>,
    command: Command,
    after: AudioEngine<A>,
)
    requires
        engine.stalled_offer is None,
        command is Param || command is Reset,
        after == (AudioEngine { chain: after.chain, ..engine }),
    ensures
        engine.carries_out(command, after) == obeys(engine.chain, command, after.chain),
{
}

/// What carrying out commands one after the other does to a chain.
pub open spec fn obeys_all<A: SampleMath>(
    before: Chain<A>,
    commands: Seq<Command>,
    after: Chain<A>,
) -> bool
    decreases commands.len(),
{
    if commands.len() == 0 {
        after == before
    } else {
        exists|between: Chain<A>|
            obeys_all(before, commands.drop_last(), between) && #[trigger] obeys(
                between,
                commands.last(),
                after,
            )
    }
}

/// Whether any of the stages holds this kind of resource.
pub open spec fn houses<A: SampleMath>(stages: Seq<ChainStage<A>>, kind: ResourceKind) -> bool {
    exists|i: int| 0 <= i < stages.len() && (#[trigger] stages[i]).holds() == Some(kind)
}

proof fn lemma_staying_adds_up<A: SampleMath>(
    first: Seq<ChainStage<A>>,
    second: Seq<ChainStage<A>>,
    third: Seq<ChainStage<A>>,
)
    requires
        all_stay(first, second),
        all_stay(second, third),
    ensures
        all_stay(first, third),
{
    assert forall|i: int| 0 <= i < first.len() implies first[i].stays(#[trigger] third[i]) by {
        assert(first[i].stays(second[i]));
        assert(second[i].stays(third[i]));
    }
}

/// Whether there is a stage for every kind of resource.
pub open spec fn full_house<A: SampleMath>(stages: Seq<ChainStage<A>>) -> bool {
    houses(stages, ResourceKind::Nam) && houses(stages, ResourceKind::Ir)
}

/// Stages that stay go on holding the same kinds of resources.
proof fn lemma_still_houses<A: SampleMath>(
    before: Seq<ChainStage<A>>,
    after: Seq<ChainStage<A>>,
    kind: ResourceKind,
)
    requires
        all_stay(before, after),
        houses(before, kind),
    ensures
        houses(after, kind),
{
    let i = choose|i: int|
        0 <= i < before.len() && (#[trigger] before[i]).holds() == Some(kind);
    assert(before[i].stays(after[i]));
}

/// Whether nothing is parked in any stage that holds this kind of resource.
pub open spec fn pens_clear<A: SampleMath>(stages: Seq<ChainStage<A>>, kind: ResourceKind) -> bool {
    forall|i: int|
        0 <= i < stages.len() && (#[trigger] stages[i]).holds() == Some(kind)
            ==> !stages[i].has_parked()
}

proof fn lemma_other_pens_stay_clear<A: SampleMath>(
    before: Chain<A>,
    command: Command,
    after: Chain<A>,
    kind: ResourceKind,
)
    requires
        obeys(before, command, after),
        command.asks().target() != Some(kind),
        pens_clear(before.stages@, kind),
    ensures
        pens_clear(after.stages@, kind),
{
    assert(all_stay(before.stages@, after.stages@));
    assert forall|i: int|
        0 <= i < after.stages@.len() && (#[trigger] after.stages@[i]).holds() == Some(
            kind,
        ) implies !after.stages@[i].has_parked() by {
        assert(before.stages@[i].stays(after.stages@[i]));
        assert(before.stages@[i].holds() == Some(kind));
        match command {
            Command::Param(_) => {},
            Command::Reset => {},
            Command::Unload(target) => {
                assert(!before.stages@[i].welcomes(target));
            },
            Command::Load(resource) => {},
        }
    }
}

} // verus!
