//! The small pieces: samples, contexts, blocks, rings and telemetry.

use std::sync::Arc;

use namir_engine::engine::{DrainGate, RingCapacities};
use namir_engine::command::{Command, CommandKind};
use namir_engine::error_codes::{max_block_size_zero, Severity};
use namir_engine::param::{ParamChange, ParamId};
use namir_engine::prepare::{ChannelConfig, PrepareContext, PrepareError, SampleRate};
use namir_engine::resource::{Resource, ResourceKind};
use namir_engine::ring::{ring, same_ring, RingConsumer, RingProducer};
use namir_engine::sample::Sample;
use namir_engine::stage_io::StageIo;
use namir_engine::telemetry::{TelemetryEntry, TelemetrySink};
use namir_engine::telemetry_ring::{
    pack, telemetry_ring, unpack, DrainPlan, TelemetryDrain, TelemetryProducer, TelemetryReader,
};

fn s(x: f32) -> Sample {
    Sample::from_bits(x.to_bits())
}

fn f(x: Sample) -> f32 {
    f32::from_bits(x.to_bits())
}

fn entry(id: u32, value: f32) -> TelemetryEntry {
    TelemetryEntry { id, value: s(value) }
}

fn block(channels: &[&[f32]], frames: usize) -> StageIo {
    let channels: Vec<Vec<Sample>> = channels
        .iter()
        .map(|ch| ch.iter().map(|x| s(*x)).collect())
        .collect();
    StageIo::new(channels, frames)
}

fn channel(io: &StageIo, index: usize) -> Vec<f32> {
    io.samples(index).iter().map(|x| f(*x)).collect()
}

// ---------------------------------------------------------------------------------------------
// Samples.
// ---------------------------------------------------------------------------------------------

#[test]
fn sample_order_is_the_order_of_the_numbers_they_encode() {
    let values = [
        f32::NEG_INFINITY,
        f32::MIN,
        -1.0,
        -f32::MIN_POSITIVE,
        -0.0,
        0.0,
        f32::MIN_POSITIVE,
        0.5,
        1.0,
        f32::MAX,
        f32::INFINITY,
        f32::NAN,
    ];
    for a in values {
        assert_eq!(s(a).is_finite(), a.is_finite(), "{a}");
        for b in values {
            assert_eq!(s(a).at_least(s(b)), a >= b, "{a} >= {b}");
            assert_eq!(s(a).exceeds(s(b)), a > b, "{a} > {b}");
        }
    }
}

#[test]
fn clamping_brings_a_magnitude_down_and_keeps_its_sign() {
    for (value, ceiling, expected) in [
        (2.0f32, 0.5f32, 0.5f32),
        (-2.0, 0.5, -0.5),
        (0.25, 0.5, 0.25),
        (-0.25, 0.5, -0.25),
        (0.5, 0.5, 0.5),
        (f32::INFINITY, 1.0, 1.0),
        (f32::NEG_INFINITY, 1.0, -1.0),
        (-0.0, 1.0, -0.0),
        (3.0, 0.0, 0.0),
    ] {
        let got = f(s(value).clamp_magnitude(s(ceiling)));
        assert_eq!(got, expected, "{value} clamped to {ceiling}");
        assert_eq!(got.is_sign_negative(), value.is_sign_negative(), "{value}");
    }
}

#[test]
fn only_numbers_that_are_not_negative_are_ceilings() {
    for usable in [0.0f32, 0.5, 1.0, f32::MAX, f32::INFINITY] {
        assert!(s(usable).usable_as_ceiling(), "{usable}");
    }
    for unusable in [-1.0f32, f32::NAN, f32::NEG_INFINITY] {
        assert!(!s(unusable).usable_as_ceiling(), "{unusable}");
    }
}

#[test]
fn counts_become_the_nearest_number() {
    for count in [
        0u64,
        1,
        2,
        3,
        255,
        16_777_215,
        16_777_216,
        16_777_217,
        16_777_219,
        33_554_431,
        0xffff_ffff,
        0x7fff_ffff_ffff_ffff,
        u64::MAX,
    ] {
        assert_eq!(f(Sample::from_count(count)), count as f32, "{count}");
    }
    assert_eq!(f(Sample::from_flag(true)), 1.0);
    assert_eq!(f(Sample::from_flag(false)), 0.0);
    assert_eq!(f(Sample::half()), 0.5);
}

// ---------------------------------------------------------------------------------------------
// Parameters, contexts, errors.
// ---------------------------------------------------------------------------------------------

#[test]
fn ids_compare_by_value() {
    assert_eq!(ParamId(7), ParamId(7));
    assert_ne!(ParamId(7), ParamId(8));
}

#[test]
fn a_switch_is_on_from_one_half_upwards() {
    for (value, on) in [
        (1.0f32, true),
        (0.5, true),
        (0.49, false),
        (0.0, false),
        (-1.0, false),
        (f32::NAN, false),
    ] {
        let change = ParamChange { id: ParamId(1), value: s(value) };
        assert_eq!(change.switches_on(), on, "{value}");
    }
}

#[test]
fn zero_max_block_size_is_rejected() {
    let err = PrepareContext::new(SampleRate::new(48_000).unwrap(), 0, ChannelConfig::Stereo)
        .unwrap_err();
    assert_eq!(err.code.id, max_block_size_zero().id);
}

#[test]
fn nonzero_max_block_size_is_accepted() {
    let ctx =
        PrepareContext::new(SampleRate::new(48_000).unwrap(), 64, ChannelConfig::Stereo).unwrap();
    assert_eq!(ctx.max_block_size(), 64);
    assert_eq!(ctx.channel_config(), ChannelConfig::Stereo);
    assert_eq!(ctx.sample_rate().hz(), 48_000);
}

#[test]
fn display_includes_code_id() {
    let err = PrepareError { code: max_block_size_zero() };
    assert!(err.message().contains("engine.prepare.max_block_size_zero"));
}

#[test]
fn the_message_is_the_id_and_the_text() {
    let code = max_block_size_zero();
    assert_eq!(code.severity, Severity::Error);
    let err = PrepareError { code };
    assert_eq!(
        err.message(),
        "engine.prepare.max_block_size_zero: Maximum block size must be greater than zero."
    );
}

#[test]
fn catalogue_ids_are_unique() {
    let all = [max_block_size_zero()];
    for (i, a) in all.iter().enumerate() {
        for b in &all[i + 1..] {
            assert_ne!(a.id, b.id);
        }
    }
}

#[test]
fn a_rate_of_zero_is_no_rate() {
    assert!(SampleRate::new(0).is_none());
    assert_eq!(SampleRate::new(1).unwrap().hz(), 1);
}

#[test]
fn every_configuration_has_its_number_of_outputs() {
    assert_eq!(ChannelConfig::Mono.output_channels(), 1);
    assert_eq!(ChannelConfig::MonoToStereo.output_channels(), 2);
    assert_eq!(ChannelConfig::Stereo.output_channels(), 2);
}

// ---------------------------------------------------------------------------------------------
// Blocks.
// ---------------------------------------------------------------------------------------------

#[test]
fn frames_is_a_prefix_of_a_longer_buffer() {
    let io = block(&[&[1.0, 2.0, 3.0, 4.0], &[5.0, 6.0, 7.0, 8.0]], 2);
    assert_eq!(io.frames(), 2);
    assert_eq!(channel(&io, 0), &[1.0, 2.0]);
    assert_eq!(channel(&io, 1), &[5.0, 6.0]);
}

#[test]
fn channels_mut_yields_all_channels() {
    let mut io = block(&[&[1.0, 2.0], &[3.0, 4.0]], 2);
    for ch in 0..io.channel_count() {
        for x in io.channel(ch).iter_mut() {
            *x = s(f(*x) * 2.0);
        }
    }
    assert_eq!(channel(&io, 0), &[2.0, 4.0]);
    assert_eq!(channel(&io, 1), &[6.0, 8.0]);
}

#[test]
fn channel_count_matches_input() {
    let io = block(&[&[0.0; 2], &[0.0; 2]], 2);
    assert_eq!(io.channel_count(), 2);
}

#[test]
fn what_lies_behind_the_frames_stays_in_the_buffers() {
    let mut io = block(&[&[1.0, 2.0, 3.0]], 2);
    io.silence();
    let channels = io.into_channels();
    let left: Vec<f32> = channels[0].iter().map(|x| f(*x)).collect();
    assert_eq!(left, vec![0.0, 0.0, 3.0]);
}

// ---------------------------------------------------------------------------------------------
// Rings.
// ---------------------------------------------------------------------------------------------

#[test]
fn values_come_out_in_the_order_they_went_in() {
    let (mut tx, mut rx) = ring::<u32>(4);
    assert!(tx.try_push(1).is_ok());
    assert!(tx.try_push(2).is_ok());
    assert!(tx.try_push(3).is_ok());
    assert_eq!(rx.try_pop(), Some(1));
    assert_eq!(rx.try_pop(), Some(2));
    assert_eq!(rx.try_pop(), Some(3));
    assert_eq!(rx.try_pop(), None);
}

#[test]
fn a_full_ring_returns_the_value_rather_than_dropping_it() {
    let (mut tx, mut rx) = ring::<u32>(2);
    assert!(tx.try_push(10).is_ok());
    assert!(tx.try_push(20).is_ok());
    assert_eq!(tx.try_push(30), Err(30), "a full ring must hand the value back");
    // Draining one slot makes room, and the previously-rejected value still exists to retry.
    assert_eq!(rx.try_pop(), Some(10));
    assert!(tx.try_push(30).is_ok());
    assert_eq!(rx.try_pop(), Some(20));
    assert_eq!(rx.try_pop(), Some(30));
}

#[test]
fn moving_an_arc_through_the_ring_keeps_it() {
    let payload = Arc::new(vec![0u8; 1024]);
    let (mut tx, mut rx) = ring::<Arc<Vec<u8>>>(4);
    tx.try_push(Arc::clone(&payload)).unwrap();
    let popped = rx.try_pop().expect("pushed one, expected one back");
    assert!(Arc::ptr_eq(&popped, &payload));
    drop(popped);
    assert_eq!(Arc::strong_count(&payload), 1);
}

#[test]
fn a_dropped_consumer_is_visible_to_the_producer() {
    let (tx, rx) = ring::<u32>(2);
    assert!(!tx.is_abandoned());
    drop(rx);
    assert!(tx.is_abandoned());
}

#[test]
fn a_dropped_producer_is_visible_to_the_consumer() {
    let (tx, rx) = ring::<u32>(2);
    assert!(!rx.is_abandoned());
    drop(tx);
    assert!(rx.is_abandoned());
}

#[test]
fn ends_are_send_but_not_sync() {
    fn assert_send<T: Send>() {}
    assert_send::<RingProducer<u32>>();
    assert_send::<RingConsumer<u32>>();
}

#[test]
fn looking_at_the_front_leaves_it_there() {
    let (mut tx, mut rx) = ring::<u32>(2);
    assert_eq!(rx.peek(), None);
    tx.try_push(5).unwrap();
    tx.try_push(6).unwrap();
    assert_eq!(rx.peek(), Some(&5));
    assert_eq!(rx.peek(), Some(&5));
    assert_eq!(rx.try_pop(), Some(5));
    assert_eq!(rx.peek(), Some(&6));
}

#[test]
fn free_slots_are_counted_down_and_up() {
    let (mut tx, mut rx) = ring::<u32>(3);
    assert_eq!(tx.slots(), 3);
    tx.try_push(1).unwrap();
    tx.try_push(2).unwrap();
    assert_eq!(tx.slots(), 1);
    rx.try_pop().unwrap();
    assert_eq!(tx.slots(), 2);
    rx.try_pop().unwrap();
    assert_eq!(tx.slots(), 3);
    assert!(rx.try_pop().is_none());
    assert_eq!(tx.slots(), 3);
}

#[test]
fn the_two_ends_of_a_ring_know_each_other() {
    let (mut tx, mut rx) = ring::<u32>(2);
    let (mut other_tx, mut other_rx) = ring::<u32>(2);
    assert!(same_ring(&mut tx, &mut rx));
    assert!(same_ring(&mut other_tx, &mut other_rx));
    assert!(!same_ring(&mut tx, &mut other_rx));
    assert!(!same_ring(&mut other_tx, &mut rx));
}

#[test]
fn a_full_ring_holds_as_many_as_it_has_slots_in_order() {
    let (mut tx, mut rx) = ring::<u32>(3);
    for value in 0..3 {
        assert!(tx.try_push(value).is_ok());
    }
    assert!(same_ring(&mut tx, &mut rx));
    assert_eq!(tx.slots(), 0);
    assert_eq!(tx.try_push(9), Err(9));
    for value in 0..3 {
        assert_eq!(rx.peek(), Some(&value));
        assert_eq!(rx.try_pop(), Some(value));
    }
    assert!(rx.try_pop().is_none());
    assert_eq!(tx.slots(), 3);
}

// ---------------------------------------------------------------------------------------------
// The telemetry sink.
// ---------------------------------------------------------------------------------------------

#[test]
fn push_is_visible_via_entries() {
    let mut storage = [entry(0, 0.0); 4];
    let mut sink = TelemetrySink::new(&mut storage);
    sink.push(entry(1, 0.5));
    sink.push(entry(2, -1.0));
    assert_eq!(sink.entries(), vec![entry(1, 0.5), entry(2, -1.0)]);
}

#[test]
fn overflow_overwrites_oldest() {
    let mut storage = [entry(0, 0.0); 2];
    let mut sink = TelemetrySink::new(&mut storage);
    sink.push(entry(1, 1.0));
    sink.push(entry(2, 2.0));
    sink.push(entry(3, 3.0)); // overwrites id 1
    assert_eq!(sink.entries(), vec![entry(2, 2.0), entry(3, 3.0)]);
    assert_eq!(sink.len(), 2);
    assert_eq!(sink.capacity(), 2);
}

#[test]
fn zero_capacity_sink_never_panics() {
    let mut storage: [TelemetryEntry; 0] = [];
    let mut sink = TelemetrySink::new(&mut storage);
    sink.push(entry(1, 1.0));
    assert!(sink.is_empty());
}

// ---------------------------------------------------------------------------------------------
// The telemetry ring.
// ---------------------------------------------------------------------------------------------

#[test]
fn packing_round_trips_bit_exactly_including_nan_and_negative_zero() {
    let ids = [0u32, 1, 0x7FFF_FFFF, u32::MAX, 0x9E37_79B9];
    let values = [
        0.0f32,
        -0.0,
        1.0,
        -1.0,
        f32::MIN,
        f32::MAX,
        f32::MIN_POSITIVE,
        f32::INFINITY,
        f32::NEG_INFINITY,
        f32::NAN,
    ];
    for id in ids {
        for value in values {
            let entry = entry(id, value);
            let back = unpack(pack(entry));
            assert_eq!(back.id, entry.id, "id round trip failed for {id}");
            assert_eq!(
                back.value.to_bits(),
                entry.value.to_bits(),
                "value round trip failed for {value}"
            );
        }
    }
}

#[test]
fn a_word_holds_the_id_above_the_value() {
    assert_eq!(pack(entry(3, 1.0)), 0x0000_0003_3f80_0000);
    assert_eq!(unpack(0x0000_0003_3f80_0000), entry(3, 1.0));
}

#[test]
fn an_entry_is_exactly_sixty_four_bits() {
    assert_eq!(std::mem::size_of::<TelemetryEntry>(), 8);
}

#[test]
fn entries_are_read_oldest_first_and_the_cursor_advances() {
    let (mut tx, mut rx) = telemetry_ring(8);
    for i in 0..5u32 {
        tx.push(entry(i, i as f32));
    }
    let mut out = [entry(0, 0.0); 8];
    let drain = rx.drain(&mut out);
    assert_eq!(drain.read, 5);
    assert_eq!(drain.missed, 0);
    for (i, entry) in out.iter().take(5).enumerate() {
        assert_eq!(entry.id, i as u32);
    }
    // Nothing new since: a second drain reads nothing rather than repeating.
    assert_eq!(rx.drain(&mut out).read, 0);
}

#[test]
fn overflow_overwrites_oldest_and_reports_what_was_missed() {
    let (mut tx, mut rx) = telemetry_ring(4);
    for i in 0..10u32 {
        tx.push(entry(i, i as f32));
    }
    let mut out = [entry(0, 0.0); 8];
    let drain = rx.drain(&mut out);
    assert_eq!(drain.read, 4, "only the ring's capacity survives");
    assert_eq!(drain.missed, 6);
    for (i, id) in (6..10u32).enumerate() {
        assert_eq!(out[i].id, id, "the four newest entries should survive");
    }
}

#[test]
fn readers_have_independent_cursors() {
    let (mut tx, mut rx1) = telemetry_ring(8);
    let mut rx2 = rx1.clone();
    tx.push(entry(7, 1.0));
    let mut out = [entry(0, 0.0); 8];
    assert_eq!(rx1.drain(&mut out).read, 1);
    assert_eq!(rx1.drain(&mut out).read, 0);
    // The second reader has not consumed anything yet and still sees it.
    assert_eq!(rx2.drain(&mut out).read, 1);
    assert_eq!(out[0].id, 7);
}

#[test]
fn a_lapped_reader_never_observes_a_fabricated_entry() {
    let (mut tx, mut rx) = telemetry_ring(16);
    let mut out = [entry(0, 0.0); 16];
    let mut seen = 0u64;
    let mut missed = 0u64;
    for i in 0..200_000u32 {
        tx.push(entry(i, i as f32));
        // Anything from keeping up to being lapped twice.
        if i % 37 == 0 || i % 5 == 0 {
            let drain = rx.drain(&mut out);
            missed += drain.missed;
            for entry in out.iter().take(drain.read) {
                assert_eq!(
                    f(entry.value),
                    entry.id as f32,
                    "observed a fabricated entry: id {} paired with another's value",
                    entry.id
                );
                seen += 1;
            }
        }
    }
    assert!(seen > 0, "the reader observed no entries at all");
    assert_eq!(missed, 0, "a reader that drains every five entries keeps up");
}

#[test]
fn a_lapped_reader_resumes_at_the_oldest_entry_there_is() {
    let (mut tx, mut rx) = telemetry_ring(16);
    let mut out = [entry(0, 0.0); 16];
    let mut next = 0u32;
    for round in 0..1_000u32 {
        for _ in 0..(round % 41) {
            tx.push(entry(next, next as f32));
            next += 1;
        }
        let drain = rx.drain(&mut out);
        let written = (round % 41) as u64;
        assert_eq!(drain.missed, written.saturating_sub(16));
        assert_eq!(drain.read as u64, written.min(16));
        for (i, entry) in out.iter().take(drain.read).enumerate() {
            assert_eq!(entry.id, next - drain.read as u32 + i as u32);
            assert_eq!(f(entry.value), entry.id as f32);
        }
    }
}

#[test]
fn a_drain_into_a_small_buffer_leaves_the_rest_for_the_next() {
    let (mut tx, mut rx) = telemetry_ring(8);
    for i in 0..5u32 {
        tx.push(entry(i, 0.0));
    }
    let mut out = [entry(99, 0.0); 2];
    assert_eq!(rx.drain(&mut out), TelemetryDrain { read: 2, missed: 0 });
    assert_eq!((out[0].id, out[1].id), (0, 1));
    assert_eq!(rx.drain(&mut out), TelemetryDrain { read: 2, missed: 0 });
    assert_eq!((out[0].id, out[1].id), (2, 3));
    assert_eq!(rx.drain(&mut out), TelemetryDrain { read: 1, missed: 0 });
    assert_eq!((out[0].id, out[1].id), (4, 3), "the place behind what was read is left alone");
}

#[test]
fn every_reading_is_read_or_missed_by_every_reader() {
    let (mut tx, first) = telemetry_ring(8);
    let mut readers = [first.clone(), first];
    let mut dealt_with = [0u64; 2];
    let mut out = [entry(0, 0.0); 16];
    for round in 0..500u64 {
        for _ in 0..(round * 7) % 23 {
            tx.push(entry(round as u32, 0.0));
        }
        for (k, reader) in readers.iter_mut().enumerate() {
            if round % (k as u64 + 2) == 0 {
                let room = (round as usize * 5) % 16;
                let drain = reader.drain(&mut out[..room]);
                dealt_with[k] += drain.read as u64 + drain.missed;
            }
        }
    }
    let pushed: u64 = (0..500u64).map(|round| (round * 7) % 23).sum();
    for (k, reader) in readers.iter_mut().enumerate() {
        let drain = reader.drain(&mut out);
        assert_eq!(dealt_with[k] + drain.read as u64 + drain.missed, pushed, "reader {k}");
    }
}

#[test]
fn capacities_are_rounded_up_to_a_power_of_two() {
    for (capacity, slots) in [(0usize, 1u32), (1, 1), (2, 2), (3, 4), (5, 8), (8, 8), (9, 16)] {
        let (mut tx, mut rx) = telemetry_ring(capacity);
        for i in 0..64u32 {
            tx.push(entry(i, 0.0));
        }
        let mut out = [entry(0, 0.0); 64];
        assert_eq!(rx.drain(&mut out).read, slots as usize, "capacity {capacity}");
        assert_eq!(out[0].id, 64 - slots);
    }
}

#[test]
fn a_plan_skips_only_what_was_overwritten() {
    assert_eq!(
        DrainPlan::compute(3, 5, 8, 10),
        DrainPlan { start: 3, read: 2, missed: 0 }
    );
    assert_eq!(
        DrainPlan::compute(3, 20, 8, 10),
        DrainPlan { start: 12, read: 8, missed: 9 }
    );
    assert_eq!(
        DrainPlan::compute(3, 20, 8, 5),
        DrainPlan { start: 12, read: 5, missed: 9 }
    );
    assert_eq!(
        DrainPlan::compute(7, 7, 8, 5),
        DrainPlan { start: 7, read: 0, missed: 0 }
    );
}

#[test]
fn both_ends_are_send_and_the_reader_is_sync() {
    fn assert_send<T: Send>() {}
    fn assert_sync<T: Sync>() {}
    assert_send::<TelemetryProducer>();
    assert_send::<TelemetryReader>();
    assert_sync::<TelemetryReader>();
}

// ---------------------------------------------------------------------------------------------
// Resources, commands, the drain's gate.
// ---------------------------------------------------------------------------------------------

#[test]
fn a_resource_record_stays_small_and_fixed_size() {
    assert!(
        std::mem::size_of::<Resource>() <= 48,
        "Resource grew to {} bytes; it should be a discriminant, a pointer, and a PrepareContext",
        std::mem::size_of::<Resource>()
    );
}

#[test]
fn a_resource_is_send() {
    fn assert_send<T: Send>() {}
    assert_send::<Resource>();
}

#[test]
fn default_capacities() {
    let caps = RingCapacities::default();
    assert_eq!((caps.commands, caps.retire, caps.telemetry), (256, 8, 256));
}

#[test]
fn commands_name_the_stage_they_hand_over_in() {
    let change = ParamChange { id: ParamId(1), value: s(0.0) };
    assert_eq!(Command::Param(change).kind().handover_target(), None);
    assert_eq!(Command::Reset.kind().handover_target(), None);
    assert_eq!(
        Command::Unload(ResourceKind::Nam).kind().handover_target(),
        Some(ResourceKind::Nam)
    );
    assert_eq!(
        Command::Unload(ResourceKind::Ir).kind().handover_target(),
        Some(ResourceKind::Ir)
    );
    assert_eq!(CommandKind::LoadNam.handover_target(), Some(ResourceKind::Nam));
    assert_eq!(CommandKind::LoadIr.handover_target(), Some(ResourceKind::Ir));
}

#[test]
fn the_gate_lets_one_handover_per_stage_through_if_there_is_room_for_it() {
    let fresh = DrainGate { nam_offered: false, ir_offered: false, reserved: 0 };

    let mut gate = fresh;
    assert!(gate.let_through(CommandKind::Param, true, 0), "parameters always pass");
    assert!(gate.let_through(CommandKind::Reset, true, 0), "resets always pass");
    assert_eq!(gate, fresh);

    assert!(!gate.let_through(CommandKind::LoadNam, false, 1), "no headroom");
    assert!(!gate.let_through(CommandKind::LoadNam, true, 8), "a retirement is stuck");
    assert_eq!(gate, fresh);

    assert!(gate.let_through(CommandKind::LoadNam, false, 3));
    assert!(!gate.let_through(CommandKind::UnloadNam, false, 8), "one handover per stage");
    assert!(!gate.let_through(CommandKind::LoadIr, false, 3), "two of the three are set aside");
    assert!(gate.let_through(CommandKind::UnloadIr, false, 4));
    assert_eq!(gate, DrainGate { nam_offered: true, ir_offered: true, reserved: 4 });
}
