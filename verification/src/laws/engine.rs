//! What the engine is for: commands reach the chain in order and in bounded numbers, no resource is
//! lost, a block that does not fit changes nothing, and everything is reported.

use vstd::prelude::*;

use crate::chain::{none_parked, parked_count, Chain};
use crate::chain_stage::ChainStage;
use crate::command::{counted_up, Command};
use crate::engine::{
    bumped, copies_loaded, handovers, obeys, obeys_all, paired, retire_capacity, AudioEngine,
    DrainGate, EngineIds, RingCapacities, WorkerEndpoint,
};
use crate::laws::chain::{a_pen_is_freed_only_by_sending_back, has_a_place};
use crate::laws::open_if;
use crate::math::SampleMath;
use crate::prepare::ChannelConfig;
use crate::resource::{Resource, ResourceKind};
use crate::ring::granted;
use crate::sample::Sample;
use crate::telemetry::TelemetryEntry;
use crate::telemetry_ring::{slots_suffice, words_after, TelemetryReader};

verus! {

/// Whether a command asks the stage that holds this kind of resource for a handover.
pub open spec fn asks_for_a_handover(command: Command, kind: ResourceKind) -> bool {
    match command {
        Command::Param(_) => false,
        Command::Reset => false,
        Command::Load(resource) => resource.belongs_to() == kind,
        Command::Unload(unloaded) => unloaded == kind,
    }
}

/// Loading and unloading ask for a handover, each of the stage of its own kind; nothing else does.
pub proof fn loads_and_unloads_are_handovers(command: Command, kind: ResourceKind)
    ensures
        (command.asks().target() == Some(kind)) == asks_for_a_handover(command, kind),
        command is Param || command is Reset ==> command.asks().target() is None,
        command is Load || command is Unload ==> command.asks().target() is Some,
{
}

/// Counts go up by one and stop at the largest.
pub proof fn counts_go_up_by_one(count: u64, figure: usize)
    ensures
        count < 0xffff_ffff_ffff_ffff ==> bumped(count) == count + 1,
        count == 0xffff_ffff_ffff_ffff ==> bumped(count) == count,
        figure < usize::MAX ==> counted_up(figure, 1) == figure + 1,
        figure == usize::MAX ==> counted_up(figure, 1) == figure,
{
}

/// A command passes unless it asks a stage for its second handover in one block, or a retirement is
/// stuck, or there are not two free slots in the return ring for each handover let through, this
/// one included. A command that passes sets aside what it needs, and only for the stage it asks.
pub proof fn a_stage_gets_one_handover_a_block(
    so_far: DrainGate,
    command: Command,
    kind: ResourceKind,
    backlog: bool,
    free: nat,
)
    requires
        so_far.reserved <= 2,
    ensures
        command is Param || command is Reset ==> so_far.passes(command.asks(), backlog, free)
            && so_far.after(command.asks()) == so_far,
        asks_for_a_handover(command, kind) ==> {
            let asked_before = match kind {
                ResourceKind::Nam => so_far.nam_offered,
                ResourceKind::Ir => so_far.ir_offered,
            };
            let next = so_far.after(command.asks());
            &&& so_far.passes(command.asks(), backlog, free) <==> !asked_before && !backlog && free
                >= so_far.reserved + 2
            &&& next.reserved == so_far.reserved + 2
            &&& next.nam_offered == (so_far.nam_offered || kind == ResourceKind::Nam)
            &&& next.ir_offered == (so_far.ir_offered || kind == ResourceKind::Ir)
            &&& !next.passes(command.asks(), backlog, free)
        },
        !DrainGate::fresh().nam_offered,
        !DrainGate::fresh().ir_offered,
        DrainGate::fresh().reserved == 0,
{
}

/// Every handover among commands counts, for its own stage, and every load of a resource.
pub proof fn each_command_counts_for_itself(
    commands: Seq<Command>,
    next: Command,
    kind: ResourceKind,
    id: int,
)
    ensures
        handovers(Seq::empty(), kind) == 0,
        handovers(commands.push(next), kind) == handovers(commands, kind) + if asks_for_a_handover(
            next,
            kind,
        ) {
            1int
        } else {
            0
        },
        copies_loaded(Seq::empty(), kind, id) == 0,
        copies_loaded(commands.push(next), kind, id) == copies_loaded(commands, kind, id) + if (
        next matches Command::Load(resource) && resource.belongs_to() == kind
            && resource.identity() == id) {
            1int
        } else {
            0
        },
{
    assert(commands.push(next).drop_last() =~= commands);
}

/// Whether a chain has carried out commands one after the other: `chains` is what it is before the
/// first of them, between any two, and behind the last.
pub open spec fn carried_out_in_order<A: SampleMath>(
    chains: Seq<Chain<A>>,
    commands: Seq<Command>,
) -> bool {
    &&& chains.len() == commands.len() + 1
    &&& forall|k: int|
        #![trigger commands[k]]
        0 <= k < commands.len() ==> carried_out(chains[k], commands[k], chains[k + 1])
}

/// Whether a chain has carried out a command: each does what it is for.
pub open spec fn carried_out<A: SampleMath>(
    before: Chain<A>,
    command: Command,
    after: Chain<A>,
) -> bool {
    match command {
        Command::Param(change) => before.applies(change, after),
        Command::Reset => before.resets_to(after),
        Command::Unload(kind) => before.unloads_to(kind, after),
        Command::Load(resource) => before.is_offered(resource, after, None) || before.is_offered(
            resource,
            after,
            Some(resource),
        ),
    }
}

/// A command does what it is for, and a series of commands is carried out one after the other, in
/// order, each of them once.
pub proof fn commands_are_carried_out_in_order<A: SampleMath>(
    before: Chain<A>,
    commands: Seq<Command>,
    after: Chain<A>,
) -> (chains: Seq<Chain<A>>)
    requires
        obeys_all(before, commands, after),
    ensures
        carried_out_in_order(chains, commands),
        chains[0] == before,
        chains[commands.len() as int] == after,
    decreases commands.len(),
{
    if commands.len() == 0 {
        seq![before]
    } else {
        let between = choose|between: Chain<A>|
            obeys_all(before, commands.drop_last(), between) && #[trigger] obeys(
                between,
                commands.last(),
                after,
            );
        let first = commands_are_carried_out_in_order(before, commands.drop_last(), between);
        let all = first.push(after);
        assert forall|k: int|
            #![trigger commands[k]]
            0 <= k < commands.len() implies carried_out(all[k], commands[k], all[k + 1]) by {
            if k < commands.len() - 1 {
                assert(commands.drop_last()[k] == commands[k]);
            } else {
                assert(obeys(between, commands[k], after));
                if let Command::Load(resource) = commands[k] {
                    let left = choose|left: Option<Resource>| #[trigger]
                        between.is_offered(resource, after, left);
                    assert(between.is_offered(resource, after, left));
                }
            }
        }
        all
    }
}

/// An offer that waits to be handed back is handed back as soon as the return ring is known to have
/// room, behind everything sent before; until then it is held. Nothing else changes.
pub proof fn a_held_offer_is_handed_back<A: SampleMath>(
    engine: AudioEngine<A>,
    after: AudioEngine<A>,
)
    requires
        engine.retries_to(after),
    ensures
        engine.stalled_offer is None ==> after == engine,
        engine.stalled_offer matches Some(resource) ==> {
            ||| after.stalled_offer is None && after.retire.sent() == engine.retire.sent().push(
                resource,
            )
            ||| after.stalled_offer == Some(resource) && after.retire.sent()
                == engine.retire.sent() && engine.retire.known_free() == 0
        },
        after.chain == engine.chain,
        after.commands == engine.commands,
        after.retire_backlog == engine.retire_backlog,
        after.deferred_blocks == engine.deferred_blocks,
        after.rejected_blocks == engine.rejected_blocks,
{
}

/// A loaded resource that a stage has a place for goes to the chain and is not sent back. One that
/// no stage has a place for comes straight back, or is held if there is no room for that. Any other
/// command sends nothing back and holds nothing.
pub proof fn an_unwanted_resource_comes_back<A: SampleMath>(
    engine: AudioEngine<A>,
    command: Command,
    after: AudioEngine<A>,
)
    requires
        engine.carries_out(command, after),
    ensures
        after.retire.ring() == engine.retire.ring(),
        after.commands == engine.commands,
        after.deferred_blocks == engine.deferred_blocks,
        after.rejected_blocks == engine.rejected_blocks,
        after.retire_backlog == engine.retire_backlog,
        !(command is Load) ==> after.retire.sent() == engine.retire.sent()
            && after.stalled_offer is None && carried_out(engine.chain, command, after.chain),
        command matches Command::Load(resource) ==> {
            let wanted = exists|i: int|
                0 <= i < engine.chain.stages@.len() && has_a_place(
                    #[trigger] engine.chain.stages@[i],
                    resource.belongs_to(),
                );
            &&& wanted ==> after.retire.sent() == engine.retire.sent()
                && after.stalled_offer is None && engine.chain.is_offered(
                resource,
                after.chain,
                None,
            )
            &&& !wanted ==> engine.chain.is_offered(resource, after.chain, Some(resource)) && {
                ||| after.retire.sent() == engine.retire.sent().push(resource)
                    && after.stalled_offer is None
                ||| after.retire.sent() == engine.retire.sent() && after.stalled_offer == Some(
                    resource,
                ) && engine.retire.known_free() == 0
            }
        },
{
    if let Command::Load(resource) = command {
        let kind = resource.belongs_to();
        let left = choose|left: Option<Resource>|
            {
                &&& #[trigger] engine.chain.is_offered(resource, after.chain, left)
                &&& engine.disposes(left, after)
            };
        assert(engine.chain.is_offered(resource, after.chain, left));
        assert forall|i: int| 0 <= i < engine.chain.stages@.len() implies (
        #[trigger] engine.chain.stages@[i]).welcomes(kind) == has_a_place(
            engine.chain.stages@[i],
            kind,
        ) by {}
        if engine.chain.welcomes(kind) {
            let at = choose|at: int|
                0 <= at < engine.chain.stages@.len() && (
                #[trigger] engine.chain.stages@[at]).welcomes(kind);
            assert(has_a_place(engine.chain.stages@[at], kind));
        } else {
            assert forall|i: int| 0 <= i < engine.chain.stages@.len() implies !has_a_place(
                #[trigger] engine.chain.stages@[i],
                kind,
            ) by {
                assert(!engine.chain.stages@[i].welcomes(kind));
            }
        }
    }
}

/// A drain takes commands from the front of the ring, in order, no more than sixty-four of them and
/// no more than one handover for each stage, none at all while a retirement is stuck. It leaves
/// commands behind only if it has taken as many as it may, or if the next one is a handover that
/// may not pass: its stage has had one, or a retirement is stuck, or there are not two free slots
/// in the return ring for every handover.
pub proof fn a_drain_stops_only_where_it_must<A: SampleMath>(
    engine: AudioEngine<A>,
    after: AudioEngine<A>,
    drained: Seq<Command>,
)
    requires
        engine.drained_by(after, drained),
    ensures
        drained.len() <= 64,
        after.commands.ring() == engine.commands.ring(),
        after.retire.ring() == engine.retire.ring(),
        engine.commands.waiting().is_prefix_of(drained + after.commands.waiting()),
        after.commands.taken() == engine.commands.taken() + drained,
        obeys_all(engine.chain, drained, after.chain),
        handovers(drained, ResourceKind::Nam) <= 1,
        handovers(drained, ResourceKind::Ir) <= 1,
        engine.retire_backlog ==> handovers(drained, ResourceKind::Nam) + handovers(
            drained,
            ResourceKind::Ir,
        ) == 0,
        after.retire_backlog == engine.retire_backlog,
        after.rejected_blocks == engine.rejected_blocks,
        after.stalled_offer == engine.stalled_offer,
        after.commands.front() matches Some(next) ==> {
            let asked = |kind: ResourceKind| handovers(drained, kind) > 0;
            let reserved = 2 * (handovers(drained, ResourceKind::Nam) + handovers(
                drained,
                ResourceKind::Ir,
            ));
            ||| drained.len() == 64
            ||| asks_for_a_handover(next, ResourceKind::Nam) && (engine.retire_backlog || asked(
                ResourceKind::Nam,
            ) || after.retire.known_free() < reserved + 2)
            ||| asks_for_a_handover(next, ResourceKind::Ir) && (engine.retire_backlog || asked(
                ResourceKind::Ir,
            ) || after.retire.known_free() < reserved + 2)
        },
        after.commands.front() is None ==> after.commands.found_empty(),
{
}

/// A block counts as deferred exactly if it leaves a command it has seen in the ring, or may not
/// drain at all because an offer still waits to be handed back. It then takes none.
pub proof fn a_block_that_leaves_commands_is_deferred<A: SampleMath>(
    engine: AudioEngine<A>,
    after: AudioEngine<A>,
)
    requires
        engine.takes_commands_to(after),
        engine.deferred_blocks < 0xffff_ffff_ffff_ffff,
    ensures
        engine.stalled_offer is Some ==> after.deferred_blocks == engine.deferred_blocks + 1
            && after.commands == engine.commands && after.chain == engine.chain && after.retire
            == engine.retire && after.stalled_offer == engine.stalled_offer,
        engine.stalled_offer is None && after.commands.front() is Some ==> after.deferred_blocks
            == engine.deferred_blocks + 1,
        engine.stalled_offer is None && after.commands.front() is None ==> after.deferred_blocks
            == engine.deferred_blocks,
        engine.stalled_offer is None ==> exists|drained: Seq<Command>| #[trigger]
            engine.drained_by(after, drained),
{
}

/// In how many of the first `k` stages something is parked.
pub open spec fn how_many_parked<A: SampleMath>(stages: Seq<ChainStage<A>>, k: int) -> nat
    decreases k,
{
    if k <= 0 {
        0
    } else if stages[k - 1].has_parked() {
        how_many_parked(stages, k - 1) + 1
    } else {
        how_many_parked(stages, k - 1)
    }
}

/// The two ways of counting agree.
proof fn lemma_parked_count<A: SampleMath>(stages: Seq<ChainStage<A>>)
    ensures
        parked_count(stages) == how_many_parked(stages, stages.len() as int),
    decreases stages.len(),
{
    if stages.len() > 0 {
        lemma_parked_count(stages.drop_last());
        lemma_same_parked(stages.drop_last(), stages, stages.len() - 1);
    }
}

/// What comes later does not count.
proof fn lemma_same_parked<A: SampleMath>(
    a: Seq<ChainStage<A>>,
    b: Seq<ChainStage<A>>,
    k: int,
)
    requires
        0 <= k <= a.len(),
        k <= b.len(),
        forall|i: int| 0 <= i < k ==> a[i] == b[i],
    ensures
        how_many_parked(a, k) == how_many_parked(b, k),
    decreases k,
{
    if k > 0 {
        lemma_same_parked(a, b, k - 1);
    }
}

/// A round of retirements leaves a stuck one exactly if something is still parked, and leaves none
/// if the return ring was known to have room for all of it. Nothing is drained or counted by it.
pub proof fn a_retirement_is_stuck_exactly_if_something_is_parked<A: SampleMath>(
    engine: AudioEngine<A>,
    after: AudioEngine<A>,
)
    requires
        engine.collects_to(after),
    ensures
        after.retire_backlog <==> exists|i: int|
            0 <= i < after.chain.stages@.len() && (#[trigger] after.chain.stages@[i]).has_parked(),
        engine.retire.known_free() >= how_many_parked(
            engine.chain.stages@,
            engine.chain.stages@.len() as int,
        ) ==> !after.retire_backlog,
        engine.retire.sent().is_prefix_of(after.retire.sent()),
        after.retire.ring() == engine.retire.ring(),
        after.commands == engine.commands,
        after.stalled_offer == engine.stalled_offer,
        after.deferred_blocks == engine.deferred_blocks,
        after.rejected_blocks == engine.rejected_blocks,
        engine.chain.retires_to(after.chain, engine.retire.sent(), after.retire.sent()),
{
    if !none_parked(after.chain.stages@) {
        let i = choose|i: int|
            0 <= i < after.chain.stages@.len() && (#[trigger] after.chain.stages@[i]).has_parked();
        assert(after.chain.stages@[i].has_parked());
    }
    lemma_parked_count(engine.chain.stages@);
    a_pen_is_freed_only_by_sending_back(
        engine.chain.stages@,
        after.chain.stages@,
        engine.retire.sent(),
        after.retire.sent(),
    );
}

/// The engine's own readings come last: how many blocks left commands behind, whether a retirement
/// is stuck, how many blocks were refused. Before them come the chain's, as many of the last of
/// them as there is room for beside these three among sixty-four.
pub proof fn the_engine_reports_last<A: SampleMath>(engine: AudioEngine<A>)
    ensures
        ({
            let all = engine.readings();
            let n = all.len() as int;
            let listed = engine.chain.readings();
            &&& n == if listed.len() + 3 <= 64 {
                listed.len() + 3
            } else {
                64
            }
            &&& all[n - 3] == (TelemetryEntry {
                id: engine.ids.deferred_blocks,
                value: Sample::nearest_to(engine.deferred_blocks as nat),
            })
            &&& all[n - 2] == (TelemetryEntry {
                id: engine.ids.retire_backlog,
                value: open_if(engine.retire_backlog),
            })
            &&& all[n - 1] == (TelemetryEntry {
                id: engine.ids.rejected_blocks,
                value: Sample::nearest_to(engine.rejected_blocks as nat),
            })
            &&& forall|i: int|
                0 <= i < n - 3 ==> #[trigger] all[i] == listed[listed.len() - (n - 3) + i]
        }),
{
}

/// Publishing changes nothing but what readers see, and moves on by as many readings as there are.
pub proof fn publishing_changes_nothing_else<A: SampleMath>(
    engine: AudioEngine<A>,
    after: AudioEngine<A>,
)
    requires
        engine.publishes_to(after),
    ensures
        after.chain == engine.chain,
        after.commands == engine.commands,
        after.retire == engine.retire,
        after.stalled_offer == engine.stalled_offer,
        after.retire_backlog == engine.retire_backlog,
        after.deferred_blocks == engine.deferred_blocks,
        after.rejected_blocks == engine.rejected_blocks,
        forall|reader: TelemetryReader|
            engine.telemetry.shares(reader) ==> #[trigger] after.telemetry.shares(reader),
        after.telemetry.position() == (engine.telemetry.position() + engine.readings().len())
            % 0x1_0000_0000_0000_0000,
        after.telemetry.words() == words_after(
            engine.telemetry.words(),
            engine.telemetry.position(),
            engine.readings(),
        ),
{
}

/// Whether a block has gone through everything that is due, in order: a held offer is retried,
/// commands are drained, retirements collected, the block processed by the chain, retirements
/// collected once more, and the readings published.
pub open spec fn went_through<A: SampleMath>(
    engines: Seq<AudioEngine<A>>,
    input: Seq<Seq<Sample>>,
    frames: nat,
    output: Seq<Seq<Sample>>,
) -> bool {
    &&& engines.len() == 7
    &&& engines[0].retries_to(engines[1])
    &&& engines[1].takes_commands_to(engines[2])
    &&& engines[2].collects_to(engines[3])
    &&& engines[3].chain.processes(input, frames, output, engines[4].chain)
    &&& engines[4] == (AudioEngine { chain: engines[4].chain, ..engines[3] })
    &&& engines[4].collects_to(engines[5])
    &&& engines[5].publishes_to(engines[6])
}

/// A block that fits goes through everything that is due, in order. It is not counted as refused,
/// and afterwards a retirement is stuck exactly if something is still parked.
pub proof fn a_block_goes_through_everything<A: SampleMath>(
    engine: AudioEngine<A>,
    input: Seq<Seq<Sample>>,
    frames: nat,
    output: Seq<Seq<Sample>>,
    after: AudioEngine<A>,
) -> (engines: Seq<AudioEngine<A>>)
    requires
        engine.plays(input, frames, output, after),
    ensures
        went_through(engines, input, frames, output),
        engines[0] == engine,
        engines[6] == after,
        after.rejected_blocks == engine.rejected_blocks,
        after.retire_backlog <==> exists|i: int|
            0 <= i < after.chain.stages@.len() && (#[trigger] after.chain.stages@[i]).has_parked(),
{
    let (retried, drained, ready, played, collected) = choose|
        retried: AudioEngine<A>,
        drained: AudioEngine<A>,
        ready: AudioEngine<A>,
        played: AudioEngine<A>,
        collected: AudioEngine<A>,
    |
        #[trigger] engine.steps(
            retried,
            drained,
            ready,
            played,
            collected,
            input,
            frames,
            output,
        ) && collected.publishes_to(after);
    assert(engine.steps(retried, drained, ready, played, collected, input, frames, output));
    a_retirement_is_stuck_exactly_if_something_is_parked(drained, ready);
    a_retirement_is_stuck_exactly_if_something_is_parked(played, collected);
    if retried.stalled_offer is None {
        let commands = choose|commands: Seq<Command>| retried.drained_by(drained, commands);
        assert(retried.drained_by(drained, commands));
    }
    seq![engine, retried, drained, ready, played, collected, after]
}

/// A block fits exactly if it is no longer than the longest that the chain was prepared for and has
/// one channel where that is mono, two where it is not. An unprepared chain takes any.
pub proof fn a_block_fits_what_was_prepared_for<A: SampleMath>(
    engine: AudioEngine<A>,
    frames: nat,
    channels: nat,
)
    ensures
        engine.chain.cross_cutting is None ==> engine.matches_preparation(frames, channels),
        engine.chain.cross_cutting matches Some(cc) ==> (engine.matches_preparation(
            frames,
            channels,
        ) <==> frames <= cc.prepared_for.max_frames() && channels == if cc.prepared_for.layout()
            == ChannelConfig::Mono {
            1int
        } else {
            2
        }),
{
}

/// The two halves of a new engine share their three rings, which are as large as asked for, the
/// return ring with room for at least one handover; nothing has been sent, counted or published.
pub proof fn a_new_engine_is_empty<A: SampleMath>(
    chain: Chain<A>,
    caps: RingCapacities,
    ids: EngineIds,
    engine: AudioEngine<A>,
    worker: WorkerEndpoint,
)
    requires
        paired(chain, caps, ids, engine, worker),
    ensures
        engine.chain == chain,
        engine.ids == ids,
        engine.commands.ring() == worker.commands.ring(),
        engine.retire.ring() == worker.retire.ring(),
        engine.telemetry.shares(worker.telemetry),
        engine.commands.waiting().len() == 0,
        engine.commands.taken().len() == 0,
        engine.retire.sent().len() == 0,
        worker.commands.sent().len() == 0,
        worker.commands.capacity() == granted::<Command>(caps.commands),
        worker.commands.known_free() == worker.commands.capacity(),
        worker.retire.taken().len() == 0,
        worker.retire.waiting().len() == 0,
        worker.retire.capacity() == granted::<Resource>(
            if caps.retire >= 2 {
                caps.retire
            } else {
                2
            },
        ),
        engine.retire.known_free() == worker.retire.capacity(),
        engine.stalled_offer is None,
        engine.deferred_blocks == 0,
        engine.rejected_blocks == 0,
        engine.retire_backlog <==> exists|i: int|
            0 <= i < chain.stages@.len() && (#[trigger] chain.stages@[i]).has_parked(),
        engine.telemetry.position() == 0,
        worker.telemetry.position() == 0,
        engine.telemetry.words().len() == worker.telemetry.slots(),
        forall|i: int|
            0 <= i < worker.telemetry.slots() ==> #[trigger] engine.telemetry.words()[i] == 0,
        worker.telemetry.slots() >= caps.telemetry,
{
    slots_suffice(caps.telemetry as nat);
    if !none_parked(chain.stages@) {
        let i = choose|i: int|
            0 <= i < chain.stages@.len() && (#[trigger] chain.stages@[i]).has_parked();
        assert(chain.stages@[i].has_parked());
    }
}

/// Unless others are asked for, there is room for 256 commands, 8 resources on their way back and
/// 256 readings; a return ring is never made smaller than two.
pub proof fn rings_have_their_usual_sizes(wanted: usize)
    ensures
        RingCapacities::standard().commands == 256,
        RingCapacities::standard().retire == 8,
        RingCapacities::standard().telemetry == 256,
        retire_capacity(wanted) >= 2,
        wanted >= 2 ==> retire_capacity(wanted) == wanted,
        wanted < 2 ==> retire_capacity(wanted) == 2,
{
}

} // verus!
