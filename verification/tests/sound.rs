//! The engine heard from outside: chains, stages and the engine itself, run on real signals.
//!
//! The engine does no arithmetic of its own, so everything that computes is supplied here: the
//! rounding arithmetic, and small but real filters, convolvers, models and meters.

use std::f32::consts::{FRAC_PI_2, PI, TAU};
use std::sync::{Arc, Mutex};

use rubato::{FftFixedInOut, Resampler};

use namir_engine::chain::{Chain, ChainIds};
use namir_engine::chain_stage::ChainStage;
use namir_engine::command::Command;
use namir_engine::engine::{
    build_default_engine, split, AudioEngine, EngineIds, RingCapacities, WorkerEndpoint,
    MAX_COMMANDS_PER_BLOCK, RETIRE_HEADROOM_PER_OFFER, TELEMETRY_SCRATCH_ENTRIES,
};
use namir_engine::math::SampleMath;
use namir_engine::param::{ParamChange, ParamId};
use namir_engine::prepare::{ChannelConfig, PrepareContext, SampleRate};
use namir_engine::resource::{Resource, ResourceKind};
use namir_engine::ring::same_ring;
use namir_engine::sample::Sample;
use namir_engine::stage::{BoxedStage, Stage, StagePrep};
use namir_engine::stage_io::StageIo;
use namir_engine::stages::eq::{
    EqBands, EqIds, EqPrep, EqSettings, EqStage, Retarget, BAND_COUNT, BAND_HIGH_PASS,
    BAND_HIGH_SHELF, BAND_LOW_PASS, BAND_LOW_SHELF, BAND_MID,
};
use namir_engine::stages::filter::{
    brief, one_block_of_samples, FilterKind, FilterMove, FilterOrders, FilterPort, FilterQ,
    FilterTarget,
};
use namir_engine::stages::gate::{GateIds, GateParams, GatePrep, GateStage};
use namir_engine::stages::handover::{handover_samples, HANDOVER_CROSSFADE_MS};
use namir_engine::stages::ir::{wet_channel_index, IrIds, IrPrep, IrSlot, IrStage};
use namir_engine::stages::ir_filters::{IrChannel, IrFilters, IrRetarget, IrShaping};
use namir_engine::stages::nam::{NamIds, NamPrep, NamSlot, NamStage};
use namir_engine::stages::out::{
    read_level, ChannelTelemetryIds, OutChannel, OutPrep, OutStage,
};
use namir_engine::stages::resampler::{pipeline_latency_samples, ConverterFigures, SlotResampler};
use namir_engine::stages::{build_default_chain, ChainParts};
use namir_engine::telemetry::{TelemetryEntry, TelemetrySink};

const SR: u32 = 48_000;
const BLOCK: usize = 64;

// ---------------------------------------------------------------------------------------------
// Ids.
// ---------------------------------------------------------------------------------------------

const GLOBAL_BYPASS_ID: ParamId = ParamId(9_001);
const OUTPUT_CEILING_DB_ID: ParamId = ParamId(9_002);
const GAIN_PARAM_ID: ParamId = ParamId(9_003);
const TRIM_GAIN_DB_ID: ParamId = ParamId(1_101);
const NORMALIZE_TARGET_ID: ParamId = ParamId(1_290);
const LEVEL_TARGET_ID: ParamId = ParamId(1_390);
const OUT_GAIN_DB_ID: ParamId = ParamId(1_501);
const OUT_GAIN_TARGET_ID: ParamId = ParamId(1_590);

const TELEMETRY_FAULT_COUNT: u32 = 2_001;
const TELEMETRY_DEFERRED_BLOCKS: u32 = 2_002;
const TELEMETRY_RETIRE_BACKLOG: u32 = 2_003;
const TELEMETRY_REJECTED_BLOCKS: u32 = 2_004;
const TELEMETRY_GAIN_REDUCTION_DB: u32 = 2_005;

const CHAIN_IDS: ChainIds = ChainIds {
    bypass: GLOBAL_BYPASS_ID,
    output_ceiling_db: OUTPUT_CEILING_DB_ID,
    fault_count: TELEMETRY_FAULT_COUNT,
};

const ENGINE_IDS: EngineIds = EngineIds {
    deferred_blocks: TELEMETRY_DEFERRED_BLOCKS,
    retire_backlog: TELEMETRY_RETIRE_BACKLOG,
    rejected_blocks: TELEMETRY_REJECTED_BLOCKS,
};

const GATE_IDS: GateIds = GateIds {
    enabled: ParamId(1_001),
    threshold_db: ParamId(1_002),
    attack_ms: ParamId(1_003),
    hold_ms: ParamId(1_004),
    release_ms: ParamId(1_005),
};

const NAM_IDS: NamIds = NamIds {
    enabled: ParamId(1_201),
    normalize_enabled: ParamId(1_202),
    normalize_offset_db: ParamId(1_203),
    loaded: 2_201,
    handover_active: 2_202,
};

const IR_IDS: IrIds = IrIds {
    enabled: ParamId(1_301),
    level_db: ParamId(1_302),
    low_cut_enabled: ParamId(1_303),
    low_cut_freq_hz: ParamId(1_304),
    high_cut_enabled: ParamId(1_305),
    high_cut_freq_hz: ParamId(1_306),
    loaded: 2_301,
    handover_active: 2_302,
};

const EQ_IDS: EqIds = EqIds {
    enabled: ParamId(1_401),
    low_shelf_freq_hz: ParamId(1_402),
    low_shelf_gain_db: ParamId(1_403),
    mid_freq_hz: ParamId(1_404),
    mid_gain_db: ParamId(1_405),
    mid_q: ParamId(1_406),
    high_shelf_freq_hz: ParamId(1_407),
    high_shelf_gain_db: ParamId(1_408),
    high_pass_enabled: ParamId(1_409),
    high_pass_freq_hz: ParamId(1_410),
    low_pass_enabled: ParamId(1_411),
    low_pass_freq_hz: ParamId(1_412),
};

const FILTER_PORT: FilterPort = FilterPort {
    ramp_samples: ParamId(1_601),
    kind: ParamId(1_602),
    freq_hz: ParamId(1_603),
    gain_db: ParamId(1_604),
    q_rule: ParamId(1_605),
    q: ParamId(1_606),
    engaged: ParamId(1_607),
};

fn out_channel_ids(channel: u32) -> ChannelTelemetryIds {
    ChannelTelemetryIds {
        peak_db: 2_500 + 10 * channel,
        average_db: 2_501 + 10 * channel,
        peak_hold_db: 2_502 + 10 * channel,
        clipped: 2_503 + 10 * channel,
    }
}

// ---------------------------------------------------------------------------------------------
// Arithmetic.
// ---------------------------------------------------------------------------------------------

fn s(x: f32) -> Sample {
    Sample::from_bits(x.to_bits())
}

fn f(x: Sample) -> f32 {
    f32::from_bits(x.to_bits())
}

fn db_to_linear(db: f32) -> f32 {
    10.0f32.powf(db / 20.0)
}

fn linear_to_db(linear: f32) -> f32 {
    20.0 * linear.max(1e-12).log10()
}

fn one_pole_coefficient(time_constant_ms: f64, hz: u32) -> f32 {
    let tau_samples = (time_constant_ms / 1000.0) * f64::from(hz);
    (1.0 - (-1.0_f64 / tau_samples).exp()) as f32
}

#[derive(Clone, Copy)]
struct F32Math;

impl SampleMath for F32Math {
    fn one_pole_coefficient(&self, time_constant_ms: u32, sample_rate_hz: u32) -> Sample {
        s(one_pole_coefficient(f64::from(time_constant_ms), sample_rate_hz))
    }

    fn one_pole(&self, position: Sample, target: Sample, coefficient: Sample) -> Sample {
        s(f(position) + f(coefficient) * (f(target) - f(position)))
    }

    fn within_step(&self, position: Sample, target: Sample, coefficient: Sample) -> bool {
        (f(target) - f(position)).abs() <= f(coefficient)
    }

    fn blend(&self, from: Sample, to: Sample, position: Sample) -> Sample {
        s(f(from) * (1.0 - f(position)) + f(to) * f(position))
    }

    fn equal_power(&self, outgoing: Sample, incoming: Sample, progress: u32, total: u32) -> Sample {
        let theta = progress as f32 / total as f32 * FRAC_PI_2;
        s(f(outgoing) * theta.cos() + f(incoming) * theta.sin())
    }

    fn db_to_linear(&self, db: Sample) -> Sample {
        s(db_to_linear(f(db)))
    }

    fn sum(&self, a: Sample, b: Sample) -> Sample {
        s(f(a) + f(b))
    }
}

type TestChain = Chain<F32Math>;
type TestEngine = AudioEngine<F32Math>;

// ---------------------------------------------------------------------------------------------
// Processors on plain numbers, and how they become stages.
// ---------------------------------------------------------------------------------------------

trait Processor: Send {
    fn process(&mut self, channels: &mut [Vec<f32>]);
    fn reset(&mut self) {}
    fn latency(&self) -> u32 {
        0
    }
    fn tail(&self) -> u32 {
        0
    }
    fn apply(&mut self, _id: ParamId, _value: f32) {}
    fn readings(&self) -> Vec<(u32, f32)> {
        Vec::new()
    }
}

struct Unit<P: Processor>(P);

impl<P: Processor> Stage for Unit<P> {
    fn process(&mut self, io: &mut StageIo) {
        let mut channels: Vec<Vec<f32>> = (0..io.channel_count())
            .map(|ch| io.samples(ch).iter().map(|x| f(*x)).collect())
            .collect();
        self.0.process(&mut channels);
        for (ch, samples) in channels.iter().enumerate() {
            for (to, from) in io.channel(ch).iter_mut().zip(samples) {
                *to = s(*from);
            }
        }
    }

    fn reset(&mut self) {
        self.0.reset();
    }

    fn latency_samples(&self) -> u32 {
        self.0.latency()
    }

    fn tail_samples(&self) -> u32 {
        self.0.tail()
    }

    fn apply(&mut self, change: ParamChange) {
        self.0.apply(change.id, f(change.value));
    }

    fn telemetry(&self, out: &mut TelemetrySink<'_>) {
        for (id, value) in self.0.readings() {
            out.push(TelemetryEntry { id, value: s(value) });
        }
    }
}

fn boxed<P: Processor + 'static>(processor: P) -> BoxedStage {
    BoxedStage(Box::new(Unit(processor)))
}

fn plain<P: Processor + 'static>(processor: P) -> ChainStage<F32Math> {
    ChainStage::Plain(boxed(processor))
}

/// A fixed gain that one parameter sets.
struct FixedGain {
    linear: f32,
}

fn fixed_gain(gain_db: f32) -> FixedGain {
    FixedGain { linear: db_to_linear(gain_db) }
}

impl Processor for FixedGain {
    fn process(&mut self, channels: &mut [Vec<f32>]) {
        for x in channels.iter_mut().flatten() {
            *x *= self.linear;
        }
    }
    fn apply(&mut self, id: ParamId, value: f32) {
        if id == GAIN_PARAM_ID {
            self.linear = db_to_linear(value);
        }
    }
}

/// Reports fixed figures and does nothing.
struct ConstantTail {
    latency: u32,
    tail: u32,
}

impl Processor for ConstantTail {
    fn process(&mut self, _channels: &mut [Vec<f32>]) {}
    fn latency(&self) -> u32 {
        self.latency
    }
    fn tail(&self) -> u32 {
        self.tail
    }
}

/// Writes a NaN into the first sample of every channel of one block.
struct NanOnBlock {
    block: usize,
    seen: usize,
}

impl Processor for NanOnBlock {
    fn process(&mut self, channels: &mut [Vec<f32>]) {
        if self.seen == self.block {
            for channel in channels.iter_mut() {
                if let Some(first) = channel.first_mut() {
                    *first = f32::NAN;
                }
            }
        }
        self.seen += 1;
    }
}

const LATENCY_PARAM_ID: ParamId = ParamId(4_242);

/// A stage whose reported latency a parameter sets.
struct VariableLatency {
    latency: u32,
}

impl Processor for VariableLatency {
    fn process(&mut self, _channels: &mut [Vec<f32>]) {}
    fn latency(&self) -> u32 {
        self.latency
    }
    fn apply(&mut self, id: ParamId, value: f32) {
        if id == LATENCY_PARAM_ID {
            self.latency = value as u32;
        }
    }
}

/// A gain that moves to its target by a one-pole, one ramp per channel.
struct GainRamp {
    target_id: ParamId,
    current: f32,
    target: f32,
    coefficient: f32,
}

impl GainRamp {
    fn new(target_id: ParamId, hz: u32, start_db: f32) -> GainRamp {
        GainRamp {
            target_id,
            current: db_to_linear(start_db),
            target: db_to_linear(start_db),
            coefficient: one_pole_coefficient(25.0, hz),
        }
    }

    fn set_target_db(&mut self, db: f32) {
        self.target = db_to_linear(db);
    }

    fn current_db(&self) -> f32 {
        linear_to_db(self.current)
    }

    fn run(&mut self, samples: &mut [f32]) {
        for x in samples.iter_mut() {
            self.current += self.coefficient * (self.target - self.current);
            *x *= self.current;
        }
    }
}

impl Processor for GainRamp {
    fn process(&mut self, channels: &mut [Vec<f32>]) {
        let start = self.current;
        for channel in channels.iter_mut() {
            self.current = start;
            self.run(channel);
        }
    }
    fn apply(&mut self, id: ParamId, value: f32) {
        if id == self.target_id {
            self.set_target_db(value);
        }
    }
    fn readings(&self) -> Vec<(u32, f32)> {
        vec![(0, self.current_db())]
    }
}

/// The input trim: sums two channels to one, and applies a gain.
struct Trim {
    ramp: GainRamp,
}

impl Processor for Trim {
    fn process(&mut self, channels: &mut [Vec<f32>]) {
        if channels.len() == 2 {
            let pad = db_to_linear(-6.0);
            let summed: Vec<f32> = channels[0]
                .iter()
                .zip(&channels[1])
                .map(|(l, r)| pad * l + pad * r)
                .collect();
            channels[0].copy_from_slice(&summed);
            channels[1].copy_from_slice(&summed);
        }
        self.ramp.process(channels);
    }
    fn apply(&mut self, id: ParamId, value: f32) {
        self.ramp.apply(id, value);
    }
}

/// A gate: opens while the level is above the threshold, stays open for the hold, then closes.
struct GateDetector {
    hz: u32,
    threshold_db: f32,
    attack_ms: f32,
    hold_ms: f32,
    release_ms: f32,
    held: u32,
    gain: f32,
}

impl GateDetector {
    fn new(hz: u32) -> GateDetector {
        GateDetector {
            hz,
            threshold_db: -70.0,
            attack_ms: 1.0,
            hold_ms: 30.0,
            release_ms: 50.0,
            held: 0,
            gain: 0.0,
        }
    }
}

impl Processor for GateDetector {
    fn process(&mut self, channels: &mut [Vec<f32>]) {
        let threshold = db_to_linear(self.threshold_db);
        let attack = one_pole_coefficient(f64::from(self.attack_ms.max(0.01)), self.hz);
        let release = one_pole_coefficient(f64::from(self.release_ms.max(0.01)), self.hz);
        let hold = (self.hold_ms / 1000.0 * self.hz as f32) as u32;
        for x in channels[0].iter_mut() {
            if x.abs() > threshold {
                self.held = hold + 48;
                self.gain += attack * (1.0 - self.gain);
            } else if self.held > 0 {
                self.held -= 1;
                self.gain += attack * (1.0 - self.gain);
            } else {
                self.gain -= release * self.gain;
            }
            *x *= self.gain;
        }
    }
    fn apply(&mut self, id: ParamId, value: f32) {
        if id == GATE_IDS.threshold_db {
            self.threshold_db = value;
        } else if id == GATE_IDS.attack_ms {
            self.attack_ms = value;
        } else if id == GATE_IDS.hold_ms {
            self.hold_ms = value;
        } else if id == GATE_IDS.release_ms {
            self.release_ms = value;
        }
    }
    fn reset(&mut self) {
        self.held = 0;
        self.gain = 0.0;
    }
    fn readings(&self) -> Vec<(u32, f32)> {
        vec![(TELEMETRY_GAIN_REDUCTION_DB, linear_to_db(self.gain))]
    }
}

/// An amp model: a waveshaper with a little memory. What it is made of is shared, as a loaded model
/// is.
struct Model {
    weights: Arc<Weights>,
    previous: f32,
}

struct Weights {
    drive: f32,
    memory: f32,
    scale: f32,
}

fn weights(seed: u64) -> Arc<Weights> {
    Arc::new(Weights {
        drive: 8.0 + 0.25 * (seed % 7) as f32,
        memory: 0.1 + 0.05 * (seed % 3) as f32,
        scale: 0.6 + 0.03 * (seed % 5) as f32,
    })
}

impl Model {
    fn of(weights: &Arc<Weights>) -> Model {
        Model { weights: Arc::clone(weights), previous: 0.0 }
    }

    fn run(&mut self, samples: &mut [f32]) {
        for x in samples.iter_mut() {
            let y = (self.weights.drive * *x + self.weights.memory * self.previous).tanh();
            self.previous = y;
            *x = self.weights.scale * y;
        }
    }
}

impl Processor for Model {
    fn process(&mut self, channels: &mut [Vec<f32>]) {
        self.run(&mut channels[0]);
    }
}

/// The frames the converters are asked for per chunk.
const RESAMPLE_CHUNK_FRAMES: usize = 256;

/// A model between two converters: into its own rate, and back.
struct ConvertedModel {
    into_model: FftFixedInOut<f32>,
    out_of_model: FftFixedInOut<f32>,
    model: Model,
}

impl ConvertedModel {
    fn new(model: Model, engine_hz: u32, model_hz: u32) -> (ConvertedModel, ConverterFigures) {
        let into_model = FftFixedInOut::<f32>::new(
            engine_hz as usize,
            model_hz as usize,
            RESAMPLE_CHUNK_FRAMES,
            1,
        )
        .unwrap();
        let engine_block = into_model.input_frames_next();
        let model_block = into_model.output_frames_next();
        let out_of_model =
            FftFixedInOut::<f32>::new(model_hz as usize, engine_hz as usize, model_block, 1)
                .unwrap();
        assert_eq!(out_of_model.input_frames_next(), model_block);
        assert_eq!(out_of_model.output_frames_next(), engine_block);
        let figures = ConverterFigures {
            engine_block,
            into_model_delay: into_model.output_delay(),
            out_of_model_delay: out_of_model.output_delay(),
        };
        (ConvertedModel { into_model, out_of_model, model }, figures)
    }
}

impl Processor for ConvertedModel {
    fn process(&mut self, channels: &mut [Vec<f32>]) {
        let mut at_model_rate = self.into_model.process(&channels[..1], None).unwrap();
        self.model.run(&mut at_model_rate[0]);
        let back = self.out_of_model.process(&at_model_rate, None).unwrap();
        channels[0].copy_from_slice(&back[0]);
    }
    fn reset(&mut self) {
        self.into_model.reset();
        self.out_of_model.reset();
    }
}

/// Direct convolution, one set of taps per channel.
struct Convolver {
    taps: Arc<Vec<Vec<f32>>>,
    past: Vec<Vec<f32>>,
}

impl Convolver {
    fn of(taps: &Arc<Vec<Vec<f32>>>) -> Convolver {
        Convolver {
            taps: Arc::clone(taps),
            past: taps.iter().map(|t| vec![0.0; t.len() - 1]).collect(),
        }
    }
}

impl Processor for Convolver {
    fn process(&mut self, channels: &mut [Vec<f32>]) {
        for (ch, channel) in channels.iter_mut().enumerate() {
            let taps = &self.taps[ch];
            let past = &mut self.past[ch];
            past.extend_from_slice(channel);
            for (i, y) in channel.iter_mut().enumerate() {
                *y = past[i..i + taps.len()]
                    .iter()
                    .rev()
                    .zip(taps.iter())
                    .map(|(x, t)| x * t)
                    .sum();
            }
            past.drain(..channel.len());
        }
    }
    fn tail(&self) -> u32 {
        self.taps[0].len() as u32
    }
}

fn direct_convolve(taps: &[f32], input: &[f32]) -> Vec<f32> {
    (0..input.len())
        .map(|n| {
            taps.iter()
                .enumerate()
                .filter(|(k, _)| *k <= n)
                .map(|(k, t)| t * input[n - k])
                .sum()
        })
        .collect()
}

/// A second-order section, in transposed form, that moves to new coefficients in a straight line.
#[derive(Clone)]
struct Biquad {
    current: [f32; 5],
    target: [f32; 5],
    step: [f32; 5],
    left: u32,
    z1: f32,
    z2: f32,
}

const IDENTITY: [f32; 5] = [1.0, 0.0, 0.0, 0.0, 0.0];

fn design(target: FilterTarget, hz: u32) -> [f32; 5] {
    let (kind, freq, q, gain_db) = match target {
        FilterTarget::Identity => return IDENTITY,
        FilterTarget::Design { kind, freq_hz, q, gain_db } => {
            let q = match q {
                FilterQ::Butterworth | FilterQ::UnitSlope => std::f64::consts::FRAC_1_SQRT_2,
                FilterQ::Given(q) => f64::from(f(q)),
            };
            (kind, f64::from(f(freq_hz)), q, f64::from(f(gain_db)))
        }
    };
    let a = 10f64.powf(gain_db / 40.0);
    let w0 = 2.0 * std::f64::consts::PI * freq / f64::from(hz);
    let (sin, cos) = (w0.sin(), w0.cos());
    let alpha = sin / (2.0 * q);
    let shelf = 2.0 * a.sqrt() * (sin / 2.0 * std::f64::consts::SQRT_2);
    let (b0, b1, b2, a0, a1, a2) = match kind {
        FilterKind::HighPass => (
            (1.0 + cos) / 2.0,
            -(1.0 + cos),
            (1.0 + cos) / 2.0,
            1.0 + alpha,
            -2.0 * cos,
            1.0 - alpha,
        ),
        FilterKind::LowPass => (
            (1.0 - cos) / 2.0,
            1.0 - cos,
            (1.0 - cos) / 2.0,
            1.0 + alpha,
            -2.0 * cos,
            1.0 - alpha,
        ),
        FilterKind::Peaking => (
            1.0 + alpha * a,
            -2.0 * cos,
            1.0 - alpha * a,
            1.0 + alpha / a,
            -2.0 * cos,
            1.0 - alpha / a,
        ),
        FilterKind::LowShelf => (
            a * ((a + 1.0) - (a - 1.0) * cos + shelf),
            2.0 * a * ((a - 1.0) - (a + 1.0) * cos),
            a * ((a + 1.0) - (a - 1.0) * cos - shelf),
            (a + 1.0) + (a - 1.0) * cos + shelf,
            -2.0 * ((a - 1.0) + (a + 1.0) * cos),
            (a + 1.0) + (a - 1.0) * cos - shelf,
        ),
        FilterKind::HighShelf => (
            a * ((a + 1.0) + (a - 1.0) * cos + shelf),
            -2.0 * a * ((a - 1.0) + (a + 1.0) * cos),
            a * ((a + 1.0) + (a - 1.0) * cos - shelf),
            (a + 1.0) - (a - 1.0) * cos + shelf,
            2.0 * ((a - 1.0) - (a + 1.0) * cos),
            (a + 1.0) - (a - 1.0) * cos - shelf,
        ),
    };
    [
        (b0 / a0) as f32,
        (b1 / a0) as f32,
        (b2 / a0) as f32,
        (a1 / a0) as f32,
        (a2 / a0) as f32,
    ]
}

impl Biquad {
    fn new() -> Biquad {
        Biquad {
            current: IDENTITY,
            target: IDENTITY,
            step: [0.0; 5],
            left: 0,
            z1: 0.0,
            z2: 0.0,
        }
    }

    fn set_coeffs(&mut self, target: [f32; 5], ramp_samples: u32) {
        self.target = target;
        self.left = ramp_samples;
        if ramp_samples == 0 {
            self.current = target;
        } else {
            for i in 0..5 {
                self.step[i] = (target[i] - self.current[i]) / ramp_samples as f32;
            }
        }
    }

    fn run(&mut self, samples: &mut [f32]) {
        for x in samples.iter_mut() {
            if self.left > 0 {
                self.left -= 1;
                if self.left == 0 {
                    self.current = self.target;
                } else {
                    for i in 0..5 {
                        self.current[i] += self.step[i];
                    }
                }
            }
            let [b0, b1, b2, a1, a2] = self.current;
            let y = b0 * *x + self.z1;
            self.z1 = b1 * *x - a1 * y + self.z2;
            self.z2 = b2 * *x - a2 * y;
            *x = y;
        }
    }
}

/// One channel's filter, which becomes what it is told to become.
struct Filter {
    hz: u32,
    section: Biquad,
    orders: FilterOrders,
}

impl Filter {
    fn new(ctx: &PrepareContext) -> Filter {
        Filter {
            hz: ctx.sample_rate().hz(),
            section: Biquad::new(),
            orders: FilterOrders::new(),
        }
    }
}

impl Processor for Filter {
    fn process(&mut self, channels: &mut [Vec<f32>]) {
        self.section.run(&mut channels[0]);
    }
    fn reset(&mut self) {
        self.section.z1 = 0.0;
        self.section.z2 = 0.0;
    }
    fn apply(&mut self, id: ParamId, value: f32) {
        if let Some(to) = self.orders.hear(&FILTER_PORT, change(id, value)) {
            self.section.set_coeffs(design(to.target, self.hz), to.ramp_samples);
        }
    }
}

fn ir_defaults() -> IrFilters {
    IrFilters {
        level_db: s(0.0),
        low_cut_enabled: false,
        low_cut_freq_hz: s(80.0),
        high_cut_enabled: false,
        high_cut_freq_hz: s(8_000.0),
    }
}

fn eq_defaults() -> EqSettings {
    EqSettings {
        enabled: true,
        low_shelf_freq_hz: s(100.0),
        low_shelf_gain_db: s(0.0),
        mid_freq_hz: s(1_000.0),
        mid_gain_db: s(0.0),
        mid_q: s(0.707),
        high_shelf_freq_hz: s(4_000.0),
        high_shelf_gain_db: s(0.0),
        high_pass_enabled: false,
        high_pass_freq_hz: s(80.0),
        low_pass_enabled: false,
        low_pass_freq_hz: s(8_000.0),
    }
}

fn eq_prep(ctx: &PrepareContext) -> EqPrep {
    EqPrep {
        ids: EQ_IDS,
        defaults: eq_defaults(),
        port: FILTER_PORT,
        first: eq_bands(ctx),
        second: eq_bands(ctx),
    }
}

fn eq_bands(ctx: &PrepareContext) -> EqBands {
    EqBands {
        high_pass: boxed(Filter::new(ctx)),
        low_shelf: boxed(Filter::new(ctx)),
        mid: boxed(Filter::new(ctx)),
        high_shelf: boxed(Filter::new(ctx)),
        low_pass: boxed(Filter::new(ctx)),
    }
}

/// What counts as silence.
const SILENCE_FLOOR_DB: f32 = -60.0;

/// A peak, average and held-peak meter with a clip indicator that latches.
#[derive(Clone)]
struct Meter {
    peak: f32,
    square: f32,
    hold: f32,
    clipped: bool,
}

impl Meter {
    fn new() -> Meter {
        Meter { peak: 0.0, square: 0.0, hold: 0.0, clipped: false }
    }

    fn run(&mut self, samples: &[f32]) {
        for x in samples {
            let level = x.abs();
            self.peak = level.max(self.peak * 0.999_93);
            self.square += 0.001 * (level * level - self.square);
            self.hold = self.hold.max(level);
            self.clipped |= level >= 1.0;
        }
    }
}

impl Processor for Meter {
    fn process(&mut self, channels: &mut [Vec<f32>]) {
        self.run(&channels[0]);
    }
    fn reset(&mut self) {
        *self = Meter::new();
    }
    fn readings(&self) -> Vec<(u32, f32)> {
        vec![
            (0, linear_to_db(self.peak)),
            (0, linear_to_db(self.square.sqrt())),
            (0, linear_to_db(self.hold)),
            (0, if self.clipped { 1.0 } else { 0.0 }),
        ]
    }
}

fn out_channel(ctx: &PrepareContext, index: u32) -> OutChannel {
    OutChannel {
        gain: boxed(GainRamp::new(OUT_GAIN_TARGET_ID, ctx.sample_rate().hz(), 0.0)),
        meter: boxed(Meter::new()),
        ids: out_channel_ids(index),
    }
}

fn out_prep(ctx: &PrepareContext) -> OutPrep<F32Math> {
    OutPrep {
        math: F32Math,
        gain_db: OUT_GAIN_DB_ID,
        gain_default_db: s(0.0),
        gain_target: OUT_GAIN_TARGET_ID,
        silence_floor_db: s(SILENCE_FLOOR_DB),
        first: out_channel(ctx, 0),
        second: out_channel(ctx, 1),
    }
}

// ---------------------------------------------------------------------------------------------
// Contexts, parts, resources.
// ---------------------------------------------------------------------------------------------

fn ctx_at(hz: u32, block: usize, config: ChannelConfig) -> PrepareContext {
    PrepareContext::new(SampleRate::new(hz).unwrap(), block, config).unwrap()
}

fn ctx_for(config: ChannelConfig) -> PrepareContext {
    ctx_at(SR, BLOCK, config)
}

fn ctx() -> PrepareContext {
    ctx_for(ChannelConfig::Mono)
}

fn gate_prep(ctx: &PrepareContext) -> GatePrep<F32Math> {
    GatePrep {
        math: F32Math,
        ids: GATE_IDS,
        enabled: true,
        params: GateParams {
            threshold_db: s(-70.0),
            attack_ms: s(1.0),
            hold_ms: s(30.0),
            release_ms: s(50.0),
        },
        detector: boxed(GateDetector::new(ctx.sample_rate().hz())),
    }
}

fn nam_prep() -> NamPrep<F32Math> {
    NamPrep {
        math: F32Math,
        ids: NAM_IDS,
        enabled: true,
        normalize_enabled: true,
        normalize_offset_db: s(0.0),
    }
}

fn ir_prep(ctx: &PrepareContext) -> IrPrep<F32Math> {
    IrPrep {
        math: F32Math,
        ids: IR_IDS,
        enabled: true,
        filters: ir_defaults(),
        port: FILTER_PORT,
        level_target: LEVEL_TARGET_ID,
        shaping: IrShaping { first: ir_channel(ctx), second: ir_channel(ctx) },
    }
}

fn ir_channel(ctx: &PrepareContext) -> IrChannel {
    IrChannel {
        low_cut: boxed(Filter::new(ctx)),
        high_cut: boxed(Filter::new(ctx)),
        level: boxed(GainRamp::new(LEVEL_TARGET_ID, ctx.sample_rate().hz(), 0.0)),
    }
}

fn trim(ctx: &PrepareContext) -> BoxedStage {
    boxed(Trim { ramp: GainRamp::new(TRIM_GAIN_DB_ID, ctx.sample_rate().hz(), 0.0) })
}

fn parts(ctx: &PrepareContext) -> ChainParts<F32Math> {
    ChainParts {
        math: F32Math,
        ids: CHAIN_IDS,
        gate: gate_prep(ctx),
        trim: trim(ctx),
        nam: nam_prep(),
        ir: ir_prep(ctx),
        eq: eq_prep(ctx),
        out: out_prep(ctx),
    }
}

fn default_chain(ctx: &PrepareContext) -> TestChain {
    build_default_chain(parts(ctx), ctx).unwrap()
}

fn default_engine(ctx: &PrepareContext) -> (TestEngine, WorkerEndpoint) {
    build_default_engine(parts(ctx), ENGINE_IDS, ctx).unwrap()
}

fn chain_of(stages: Vec<ChainStage<F32Math>>) -> TestChain {
    Chain::new(stages, CHAIN_IDS, F32Math)
}

/// A slot for a model that runs at `model_hz`.
fn nam_slot_at(
    model: &Arc<Weights>,
    model_hz: u32,
    loudness_gain_db: Option<f32>,
    ctx: &PrepareContext,
) -> Box<NamSlot> {
    let engine_hz = ctx.sample_rate().hz();
    let (core, figures) = if model_hz == engine_hz {
        let figures =
            ConverterFigures { engine_block: 1, into_model_delay: 0, out_of_model_delay: 0 };
        (boxed(Model::of(model)), figures)
    } else {
        let (converted, figures) = ConvertedModel::new(Model::of(model), engine_hz, model_hz);
        (boxed(converted), figures)
    };
    Box::new(NamSlot::new(
        core,
        ctx.sample_rate(),
        SampleRate::new(model_hz).unwrap(),
        ctx.max_block_size(),
        figures,
        loudness_gain_db.map(s),
        boxed(GainRamp::new(NORMALIZE_TARGET_ID, engine_hz, 0.0)),
        NORMALIZE_TARGET_ID,
    ))
}

fn nam_slot(model: &Arc<Weights>, ctx: &PrepareContext) -> Box<NamSlot> {
    nam_slot_at(model, ctx.sample_rate().hz(), None, ctx)
}

fn load_nam_command(model: &Arc<Weights>, ctx: &PrepareContext) -> Command {
    Command::Load(Resource::nam(nam_slot(model, ctx), *ctx))
}

type Taps = Arc<Vec<Vec<f32>>>;

fn decaying_noise(taps: usize, seed: u64, decay: f32) -> Vec<f32> {
    let mut state = seed.wrapping_mul(0x9e37_79b9_7f4a_7c15) | 1;
    (0..taps)
        .map(|i| {
            state = state.wrapping_mul(6_364_136_223_846_793_005).wrapping_add(1_442_695_040_888_963_407);
            let noise = ((state >> 40) as f32 / (1u64 << 23) as f32) - 1.0;
            0.25 * noise * (-(i as f32) / decay).exp()
        })
        .collect()
}

fn mono_taps(seed: u64, taps: usize) -> Taps {
    Arc::new(vec![decaying_noise(taps, seed, 128.0)])
}

fn stereo_taps(seed: u64, taps: usize) -> Taps {
    Arc::new(vec![
        decaying_noise(taps, seed, 128.0),
        decaying_noise(taps, seed ^ 0x5eed_5eed, 96.0),
    ])
}

fn ir_slot(taps: &Taps, ctx: &PrepareContext) -> Box<IrSlot> {
    Box::new(IrSlot::new(boxed(Convolver::of(taps)), taps.len(), ctx.max_block_size()))
}

fn load_ir_command(taps: &Taps, ctx: &PrepareContext) -> Command {
    Command::Load(Resource::ir(ir_slot(taps, ctx), *ctx))
}

fn offer(chain: &mut TestChain, resource: Resource) {
    let mut offer = Some(resource);
    chain.offer(&mut offer);
    assert!(offer.is_none(), "no stage accepted the resource");
}

fn load_nam(chain: &mut TestChain, model: &Arc<Weights>, ctx: &PrepareContext) {
    offer(chain, Resource::nam(nam_slot(model, ctx), *ctx));
}

fn load_nam_at(chain: &mut TestChain, model: &Arc<Weights>, model_hz: u32, ctx: &PrepareContext) {
    offer(chain, Resource::nam(nam_slot_at(model, model_hz, None, ctx), *ctx));
}

fn load_ir(chain: &mut TestChain, taps: &Taps, ctx: &PrepareContext) {
    offer(chain, Resource::ir(ir_slot(taps, ctx), *ctx));
}

fn change(id: ParamId, value: f32) -> ParamChange {
    ParamChange { id, value: s(value) }
}

fn set_param(chain: &mut TestChain, id: ParamId, value: f32) {
    chain.apply(change(id, value));
}

// ---------------------------------------------------------------------------------------------
// Signals, and what is measured of them.
// ---------------------------------------------------------------------------------------------

fn sine(len: usize, freq_hz: f32, sample_rate: u32, amplitude: f32) -> Vec<f32> {
    let step = TAU * freq_hz / sample_rate as f32;
    (0..len).map(|i| amplitude * (step * i as f32).sin()).collect()
}

fn chirp(len: usize, from_hz: f32, to_hz: f32, sample_rate: u32, amplitude: f32) -> Vec<f32> {
    let sr = sample_rate as f32;
    let mut phase = 0.0f32;
    (0..len)
        .map(|i| {
            let t = i as f32 / len.max(1) as f32;
            let hz = from_hz + (to_hz - from_hz) * t;
            let x = amplitude * phase.sin();
            phase += TAU * hz / sr;
            if phase > TAU {
                phase -= TAU;
            }
            x
        })
        .collect()
}

fn duplicated(mono: &[f32], channels: usize) -> Vec<Vec<f32>> {
    (0..channels).map(|_| mono.to_vec()).collect()
}

fn peak(samples: &[f32]) -> f32 {
    samples.iter().fold(0.0f32, |m, x| m.max(x.abs()))
}

fn max_abs_first_difference(samples: &[f32]) -> f32 {
    samples.windows(2).map(|w| (w[1] - w[0]).abs()).fold(0.0f32, f32::max)
}

fn max_abs_difference(a: &[f32], b: &[f32]) -> f32 {
    assert_eq!(a.len(), b.len(), "signals must be the same length");
    a.iter().zip(b.iter()).map(|(x, y)| (x - y).abs()).fold(0.0f32, f32::max)
}

fn min_window_peak(samples: &[f32], window: usize) -> f32 {
    samples.chunks(window.max(1)).map(peak).fold(f32::INFINITY, f32::min)
}

fn estimate_delay_samples(input: &[f32], output: &[f32], max_lag: usize) -> usize {
    let mut best_lag = 0;
    let mut best_score = f32::NEG_INFINITY;
    for lag in 0..=max_lag {
        if lag >= output.len() {
            break;
        }
        let n = (output.len() - lag).min(input.len());
        if n == 0 {
            break;
        }
        let x = &input[..n];
        let y = &output[lag..lag + n];
        let mut num = 0.0f64;
        let mut den_x = 0.0f64;
        let mut den_y = 0.0f64;
        for (&a, &b) in x.iter().zip(y.iter()) {
            num += a as f64 * b as f64;
            den_x += a as f64 * a as f64;
            den_y += b as f64 * b as f64;
        }
        let den = (den_x * den_y).sqrt();
        if den <= 0.0 {
            continue;
        }
        let score = (num / den) as f32;
        if score > best_score {
            best_score = score;
            best_lag = lag;
        }
    }
    best_lag
}

// ---------------------------------------------------------------------------------------------
// Running things.
// ---------------------------------------------------------------------------------------------

fn block_of(channels: &[&[f32]]) -> StageIo {
    let frames = channels[0].len();
    let channels: Vec<Vec<Sample>> = channels
        .iter()
        .map(|ch| ch.iter().map(|x| s(*x)).collect())
        .collect();
    StageIo::new(channels, frames)
}

fn heard(io: &StageIo, channel: usize) -> Vec<f32> {
    io.samples(channel).iter().map(|x| f(*x)).collect()
}

/// One block of one channel through a chain.
fn through(chain: &mut TestChain, input: &[f32]) -> Vec<f32> {
    let mut io = block_of(&[input]);
    chain.process(&mut io);
    heard(&io, 0)
}

fn run_with(
    chain: &mut TestChain,
    input: &[Vec<f32>],
    block: usize,
    mut at_block: impl FnMut(usize, &mut TestChain),
) -> Vec<Vec<f32>> {
    let frames = input[0].len();
    let mut out: Vec<Vec<f32>> = input.iter().map(|_| Vec::with_capacity(frames)).collect();
    let mut offset = 0;
    let mut index = 0;
    while offset < frames {
        at_block(index, chain);
        let n = block.min(frames - offset);
        let channels: Vec<&[f32]> = input.iter().map(|c| &c[offset..offset + n]).collect();
        let mut io = block_of(&channels);
        chain.process(&mut io);
        for (ch, channel) in out.iter_mut().enumerate() {
            channel.extend(heard(&io, ch));
        }
        offset += n;
        index += 1;
    }
    out
}

fn run(chain: &mut TestChain, input: &[Vec<f32>], block: usize) -> Vec<Vec<f32>> {
    run_with(chain, input, block, |_, _| {})
}

fn run_blocks(
    chain: &mut TestChain,
    input: &[f32],
    block: usize,
    at_block: impl FnMut(usize, &mut TestChain),
) -> Vec<f32> {
    run_with(chain, &[input.to_vec()], block, at_block).remove(0)
}

// ---------------------------------------------------------------------------------------------
// The chain.
// ---------------------------------------------------------------------------------------------

#[test]
fn empty_chain_has_zero_latency_and_tail() {
    let chain = chain_of(Vec::new());
    assert_eq!(chain.latency_samples(), 0);
    assert_eq!(chain.tail_samples(), 0);
}

#[test]
fn latency_sums_across_stages() {
    let chain = chain_of(vec![
        plain(ConstantTail { latency: 10, tail: 0 }),
        plain(ConstantTail { latency: 5, tail: 0 }),
    ]);
    assert_eq!(chain.latency_samples(), 15);
}

#[test]
fn latency_that_does_not_fit_stops_at_the_largest_figure() {
    let chain = chain_of(vec![
        plain(ConstantTail { latency: u32::MAX, tail: 7 }),
        plain(ConstantTail { latency: 5, tail: 0 }),
    ]);
    assert_eq!(chain.latency_samples(), u32::MAX);
    assert_eq!(chain.tail_samples(), 12);
}

#[test]
fn tail_of_a_single_stage_passes_through_unchanged() {
    let chain = chain_of(vec![plain(ConstantTail { latency: 0, tail: 100 })]);
    assert_eq!(chain.tail_samples(), 100);
}

#[test]
fn tail_from_an_earlier_stage_gains_downstream_latency() {
    let chain = chain_of(vec![
        plain(ConstantTail { latency: 0, tail: 100 }),
        plain(ConstantTail { latency: 20, tail: 0 }),
    ]);
    assert_eq!(chain.tail_samples(), 120);
}

#[test]
fn tail_is_the_max_contribution_not_the_sum() {
    let chain = chain_of(vec![
        plain(ConstantTail { latency: 0, tail: 100 }),
        plain(ConstantTail { latency: 20, tail: 30 }),
    ]);
    assert_eq!(chain.tail_samples(), 120);
}

#[test]
fn later_stage_tail_can_dominate() {
    let chain = chain_of(vec![
        plain(ConstantTail { latency: 5, tail: 10 }),
        plain(ConstantTail { latency: 0, tail: 200 }),
    ]);
    assert_eq!(chain.tail_samples(), 200);
}

#[test]
fn apply_broadcasts_to_every_stage() {
    let mut chain = chain_of(vec![plain(fixed_gain(0.0)), plain(fixed_gain(0.0))]);
    chain.apply(change(GAIN_PARAM_ID, 6.0));
    // Both stages picked up the change, so gain was applied twice (cascaded).
    let expected = db_to_linear(6.0) * db_to_linear(6.0);
    for x in through(&mut chain, &[1.0; 4]) {
        assert!((x - expected).abs() < 1e-4);
    }
}

#[test]
fn apply_ignores_unrelated_ids() {
    let mut chain = chain_of(vec![plain(fixed_gain(0.0))]);
    chain.apply(change(ParamId(999), 6.0));
    for x in through(&mut chain, &[1.0; 4]) {
        assert!((x - 1.0).abs() < 1e-6);
    }
}

#[test]
fn prepare_crosscutting_bypass_is_unity_gain_passthrough_at_zero_latency() {
    let mut chain = chain_of(vec![plain(fixed_gain(6.0))]);
    chain.prepare_crosscutting(&ctx());
    chain.set_global_bypass(true);
    let out = through(&mut chain, &[0.1, 0.2, 0.3, 0.4]);
    assert_eq!(out, &[0.1, 0.2, 0.3, 0.4]);
}

#[test]
fn prepare_crosscutting_bypass_delays_by_declared_latency_for_sample_alignment() {
    let mut chain = chain_of(vec![plain(ConstantTail { latency: 3, tail: 0 })]);
    assert_eq!(chain.latency_samples(), 3);
    chain.prepare_crosscutting(&ctx());
    chain.set_global_bypass(true);
    let out = through(&mut chain, &[0.1, 0.2, 0.3, 0.4, 0.5]);
    // First 3 samples are the line's zero prefill; from sample 3 onward, output[n] == input[n - 3].
    assert_eq!(out, &[0.0, 0.0, 0.0, 0.1, 0.2]);
}

#[test]
fn bypassed_output_nulls_against_delayed_input_to_within_120_dbfs() {
    const BLOCK: usize = 64;
    const BLOCKS: usize = 8;
    const TOTAL: usize = BLOCK * BLOCKS;
    let null_floor = db_to_linear(-120.0);

    for latency in [0u32, 3, 97] {
        let input: Vec<f32> = (0..TOTAL)
            .map(|n| {
                let t = n as f32 / 48_000.0;
                0.25 * (2.0 * PI * 220.0 * t).sin() + 0.25 * (2.0 * PI * 3_001.0 * t).sin()
            })
            .collect();
        let mut chain =
            chain_of(vec![plain(fixed_gain(6.0)), plain(ConstantTail { latency, tail: 0 })]);
        assert_eq!(chain.latency_samples(), latency);
        chain.prepare_crosscutting(&ctx());
        chain.set_global_bypass(true);

        let output = run_blocks(&mut chain, &input, BLOCK, |_, _| {});
        assert_eq!(output.len(), TOTAL);

        let delay = latency as usize;
        let delayed_input: Vec<f32> =
            std::iter::repeat(0.0f32).take(delay).chain(input.iter().copied()).take(TOTAL).collect();
        let peak_residual = max_abs_difference(&output, &delayed_input);
        assert!(
            peak_residual <= null_floor,
            "bypassed output minus input delayed by {latency} samples peaked at {peak_residual:e}, \
             above the -120 dBFS null floor {null_floor:e}"
        );
    }
}

#[test]
fn fault_detection_zeroes_whole_block_then_processing_continues_next_call() {
    let mut chain = chain_of(vec![plain(NanOnBlock { block: 0, seen: 0 })]);
    chain.prepare_crosscutting(&ctx());

    for x in through(&mut chain, &[1.0, 2.0, 3.0, 4.0]) {
        assert_eq!(x, 0.0, "a single NaN must silence the *whole* block");
    }
    assert_eq!(chain.fault_count(), 1);

    for x in through(&mut chain, &[0.25, 0.25, 0.25, 0.25]) {
        assert!((x - 0.25).abs() < 1e-6);
    }
    assert_eq!(chain.fault_count(), 1, "a clean block must not increment the fault counter again");
}

#[test]
fn output_ceiling_clamps_magnitude_preserving_sign() {
    let mut chain = chain_of(vec![plain(fixed_gain(20.0))]);
    chain.prepare_crosscutting(&ctx());
    chain.set_output_ceiling_db(s(-6.0));
    let ceiling = db_to_linear(-6.0);

    let out = through(&mut chain, &[1.0, -1.0, 0.01, -0.01]);
    assert!((out[0] - ceiling).abs() < 1e-5, "positive overshoot must clamp to +ceiling");
    assert!((out[1] - (-ceiling)).abs() < 1e-5, "negative overshoot must clamp to -ceiling");
    // 0.01 * 10 = 0.1, well under the ~0.501 ceiling: must pass through unclamped.
    assert!((out[2] - 0.1).abs() < 1e-5);
    assert!((out[3] - (-0.1)).abs() < 1e-5);
}

#[test]
fn a_ceiling_that_is_no_number_leaves_the_old_one_in_force() {
    let mut chain = chain_of(vec![plain(fixed_gain(20.0))]);
    chain.prepare_crosscutting(&ctx());
    chain.set_output_ceiling_db(s(-6.0));
    chain.set_output_ceiling_db(s(f32::NAN));
    let out = through(&mut chain, &[1.0, -1.0]);
    assert_eq!(out, &[db_to_linear(-6.0), -db_to_linear(-6.0)]);
}

#[test]
fn bypass_compensation_follows_a_latency_change_made_after_prepare() {
    const BLOCK: usize = 16;
    const LATENCY: usize = 5;
    const CHANGE_AT: usize = 2;

    let mut chain = chain_of(vec![plain(VariableLatency { latency: 0 })]);
    chain.prepare_crosscutting(&ctx());
    chain.set_global_bypass(true);
    assert_eq!(
        chain.latency_samples(),
        0,
        "the line is sized while the chain still reports zero -- that is the whole setup"
    );

    // A ramp: every sample distinct, so a misalignment of even one sample is visible.
    let input: Vec<f32> = (0..BLOCK * 8).map(|n| 0.001 * n as f32).collect();
    let output = run_blocks(&mut chain, &input, BLOCK, |i, chain| {
        if i == CHANGE_AT {
            chain.apply(change(LATENCY_PARAM_ID, LATENCY as f32));
        }
    });

    assert_eq!(chain.latency_samples(), LATENCY as u32);
    for n in CHANGE_AT * BLOCK..input.len() {
        let expected = input[n - LATENCY];
        assert!(
            (output[n] - expected).abs() < 1e-6,
            "sample {n}: bypassed output {} against an input delayed by {LATENCY} ({expected})",
            output[n]
        );
    }
}

#[test]
fn engaging_bypass_emits_the_real_signal_rather_than_stale_ring_content() {
    const BLOCK: usize = 64;
    const LATENCY: usize = 3;
    const PHASE: usize = 8_192;
    const PROBE: usize = 5;

    let mut chain = chain_of(vec![plain(ConstantTail { latency: LATENCY as u32, tail: 0 })]);
    chain.prepare_crosscutting(&ctx());

    let input: Vec<f32> = (0..PHASE * 4).map(|n| 0.01 * ((n % 61) + 1) as f32).collect();
    let output = run_blocks(&mut chain, &input, BLOCK, |i, chain| {
        // off, on, off, on.
        chain.set_global_bypass((i * BLOCK / PHASE) % 2 == 1);
    });

    // Bypass off: a no-op stage passes the input straight through, from the first sample.
    assert_eq!(&output[..BLOCK], &input[..BLOCK]);

    let coeff = one_pole_coefficient(15.0, 48_000);
    for start in [PHASE, 3 * PHASE] {
        let mut m = 0.0f32;
        for k in 0..PROBE {
            let n = start + k;
            m += coeff * (1.0 - m);
            let wet = input[n]; // the no-op stage's own output
            let dry = input[n - LATENCY]; // what the line must hand back
            let expected = wet * (1.0 - m) + dry * m;
            assert!(
                (output[n] - expected).abs() <= 1e-7,
                "sample {n}: engaging bypass emitted {} instead of the blend ({expected})",
                output[n]
            );
            assert!(
                (expected - wet * (1.0 - m)).abs() > 1e-6,
                "sample {n}: the dry term is within the tolerance above"
            );
        }
        for n in start + PHASE - BLOCK..start + PHASE {
            assert_eq!(
                output[n],
                input[n - LATENCY],
                "sample {n}: a settled bypass must be the delayed input exactly"
            );
        }
    }

    for n in 3 * PHASE - BLOCK..3 * PHASE {
        assert_eq!(output[n], input[n], "sample {n}: releasing bypass must settle on the stages");
    }
}

#[test]
fn global_bypass_bypasses_on_a_chain_that_never_prepared_crosscutting() {
    let mut chain = chain_of(vec![plain(fixed_gain(6.0))]);
    assert_eq!(chain.prepared_for(), None);
    chain.set_global_bypass(true);

    let input = [0.25f32, -0.5, 0.75, -0.125];
    assert_eq!(through(&mut chain, &input), input);

    chain.set_global_bypass(false);
    let gain = db_to_linear(6.0);
    for (out, inp) in through(&mut chain, &input).iter().zip(&input) {
        assert!((out - inp * gain).abs() < 1e-4, "{out} vs {}", inp * gain);
    }
}

#[test]
fn bypass_does_not_clamp_a_signal_above_the_output_ceiling() {
    const BLOCK: usize = 64;
    const TOTAL: usize = BLOCK * 8;
    const LATENCY: usize = 7;
    const SETTLING_RUNS: usize = 12;
    let null_floor = db_to_linear(-120.0);

    let input: Vec<f32> = (0..TOTAL)
        .map(|n| {
            let t = n as f32 / 48_000.0;
            1.5 * (2.0 * PI * 220.0 * t).sin()
        })
        .collect();

    let mut chain = chain_of(vec![plain(ConstantTail { latency: LATENCY as u32, tail: 0 })]);
    chain.prepare_crosscutting(&ctx());
    chain.set_global_bypass(true);
    let output = run_blocks(&mut chain, &input, BLOCK, |_, _| {});

    let delayed: Vec<f32> =
        std::iter::repeat(0.0f32).take(LATENCY).chain(input.iter().copied()).take(TOTAL).collect();
    let peak_residual = max_abs_difference(&output, &delayed);
    assert!(
        peak_residual <= null_floor,
        "bypassed output minus delayed input peaked at {peak_residual:e}, above {null_floor:e}"
    );

    // With bypass off, and settled, the ceiling applies.
    chain.set_global_bypass(false);
    for _ in 0..SETTLING_RUNS {
        run_blocks(&mut chain, &input, BLOCK, |_, _| {});
    }
    let clamped = run_blocks(&mut chain, &input, BLOCK, |_, _| {});
    let peak = peak(&clamped);
    assert!(peak <= 1.0 + 1e-6, "the stages' path must clamp to 0 dBFS, peaked at {peak}");
}

#[test]
fn global_bypass_crossfades_in_both_directions_rather_than_stepping() {
    const BLOCK: usize = 64;
    const DRY: f32 = 0.25;
    const PHASE: usize = 12_000;

    let mut chain = chain_of(vec![plain(fixed_gain(6.0))]);
    chain.prepare_crosscutting(&ctx());

    let input = vec![DRY; PHASE];
    let engaged = run_blocks(&mut chain, &input, BLOCK, |_, _| {});
    chain.set_global_bypass(true);
    let engaging = run_blocks(&mut chain, &input, BLOCK, |_, _| {});
    chain.set_global_bypass(false);
    let releasing = run_blocks(&mut chain, &input, BLOCK, |_, _| {});

    let wet = DRY * db_to_linear(6.0);
    assert!((engaged[PHASE - 1] - wet).abs() < 1e-6, "{}", engaged[PHASE - 1]);
    assert_eq!(engaging[PHASE - 1], DRY, "an engaged bypass must settle on the dry signal exactly");
    assert!((releasing[PHASE - 1] - wet).abs() < 1e-6, "{}", releasing[PHASE - 1]);

    // |wet - dry| is the blend's whole range; a linear ramp over 15 ms of it is the bound.
    let ideal_max_delta = (wet - DRY) / (0.015 * 48_000.0);
    for (name, previous, phase) in [
        ("engaging", engaged[PHASE - 1], &engaging),
        ("releasing", engaging[PHASE - 1], &releasing),
    ] {
        let mut previous = previous;
        let mut max_delta = 0.0f32;
        for &sample in phase.iter() {
            max_delta = max_delta.max((sample - previous).abs());
            previous = sample;
        }
        assert!(
            max_delta <= ideal_max_delta * 1.01,
            "{name}: max_delta={max_delta} exceeds the 15 ms linear ramp bound {ideal_max_delta}"
        );
        assert!(max_delta > 0.0, "{name}: the blend never advanced");
    }
}

#[test]
fn the_first_block_after_preparation_starts_settled_rather_than_fading() {
    let mut chain = chain_of(vec![plain(fixed_gain(6.0))]);
    chain.prepare_crosscutting(&ctx());
    chain.set_global_bypass(true);

    let input = [0.1f32, 0.2, 0.3, 0.4];
    assert_eq!(through(&mut chain, &input), input);

    chain.set_global_bypass(false);
    let second = through(&mut chain, &input);
    let wet = input[0] * db_to_linear(6.0);
    assert!(
        (second[0] - input[0]).abs() < (second[0] - wet).abs(),
        "a switch after the first block must fade, not step: got {} against a dry {} and {wet}",
        second[0],
        input[0]
    );
    assert_ne!(second[0], input[0], "...and it must actually have started moving");
}

#[test]
fn fault_containment_still_runs_on_the_bypass_path() {
    let mut chain = chain_of(Vec::new());
    chain.prepare_crosscutting(&ctx());
    chain.set_global_bypass(true);
    for x in through(&mut chain, &[1.0, f32::NAN, 3.0, 4.0]) {
        assert_eq!(x, 0.0, "a NaN reaching the bypass path must still silence the block");
    }
    assert_eq!(chain.fault_count(), 1);
}

#[test]
fn a_nan_inside_the_bypass_fade_is_silenced_and_counted() {
    let mut chain = chain_of(vec![plain(NanOnBlock { block: 1, seen: 0 })]);
    chain.prepare_crosscutting(&ctx());
    let input = [0.25f32; BLOCK];
    assert_eq!(through(&mut chain, &input), input);

    // The crossfade has only just begun, so both sides are heard, and one of them is broken.
    chain.set_global_bypass(true);
    assert_eq!(through(&mut chain, &input), [0.0; BLOCK]);
    assert_eq!(chain.fault_count(), 1);

    for x in through(&mut chain, &input) {
        assert!((x - 0.25).abs() < 1e-6, "the block after a fault is heard again, got {x}");
    }
    assert_eq!(chain.fault_count(), 1);
}

#[test]
fn a_settled_bypass_delays_the_same_however_the_stream_is_divided() {
    let input: Vec<f32> = (0..600).map(|n| 0.001 * n as f32 - 0.3).collect();
    let expected: Vec<f32> =
        std::iter::repeat(0.0f32).take(97).chain(input.iter().copied()).take(600).collect();
    for block in [1usize, 7, 64] {
        let mut chain =
            chain_of(vec![plain(fixed_gain(6.0)), plain(ConstantTail { latency: 97, tail: 0 })]);
        chain.prepare_crosscutting(&ctx());
        chain.set_global_bypass(true);
        assert_eq!(run_blocks(&mut chain, &input, block, |_, _| {}), expected, "blocks of {block}");
    }
}

#[test]
fn bypass_and_ceiling_can_be_set_in_either_order() {
    let input: Vec<f32> = (0..2_000).map(|n| 0.9 * (n as f32 * 0.05).sin()).collect();
    let outputs: Vec<Vec<f32>> = [false, true]
        .iter()
        .map(|&ceiling_first| {
            let mut chain = chain_of(vec![plain(fixed_gain(6.0))]);
            chain.prepare_crosscutting(&ctx());
            run_blocks(&mut chain, &input, BLOCK, |_, _| {});
            if ceiling_first {
                set_param(&mut chain, OUTPUT_CEILING_DB_ID, -12.0);
                set_param(&mut chain, GLOBAL_BYPASS_ID, 1.0);
            } else {
                set_param(&mut chain, GLOBAL_BYPASS_ID, 1.0);
                set_param(&mut chain, OUTPUT_CEILING_DB_ID, -12.0);
            }
            run_blocks(&mut chain, &input, BLOCK, |_, _| {})
        })
        .collect();
    assert_eq!(outputs[0], outputs[1]);
}

#[test]
fn settings_made_before_a_preparation_are_heard_after_it() {
    let input: Vec<f32> = (0..1_000).map(|n| 0.9 * (n as f32 * 0.05).sin()).collect();
    for bypass in [0.0, 1.0] {
        let outputs: Vec<Vec<f32>> = [false, true]
            .iter()
            .map(|&prepared_first| {
                let mut chain = chain_of(vec![plain(fixed_gain(6.0))]);
                if prepared_first {
                    chain.prepare_crosscutting(&ctx());
                }
                set_param(&mut chain, GLOBAL_BYPASS_ID, bypass);
                set_param(&mut chain, OUTPUT_CEILING_DB_ID, -12.0);
                if !prepared_first {
                    chain.prepare_crosscutting(&ctx());
                }
                run_blocks(&mut chain, &input, BLOCK, |_, _| {})
            })
            .collect();
        assert_eq!(outputs[0], outputs[1], "bypass {bypass}");
        if bypass == 0.0 {
            assert_eq!(peak(&outputs[0]), db_to_linear(-12.0));
        } else {
            assert_eq!(outputs[0], input);
        }
    }
}

#[test]
fn a_block_leaves_what_lies_behind_it_alone() {
    for bypassed in [false, true] {
        let mut chain = default_chain(&ctx());
        chain.set_global_bypass(bypassed);
        let mut io = StageIo::new(vec![vec![s(0.5); 50]], 32);
        chain.process(&mut io);
        let channels = io.into_channels();
        assert_eq!(channels[0].len(), 50);
        assert!(channels[0][32..].iter().all(|x| *x == s(0.5)), "bypassed: {bypassed}");
    }
}

#[test]
fn a_new_chain_is_late_by_its_trim_alone() {
    let c = ctx();
    assert_eq!(default_chain(&c).latency_samples(), 0);
    let late = ChainParts { trim: boxed(ConstantTail { latency: 11, tail: 0 }), ..parts(&c) };
    assert_eq!(build_default_chain(late, &c).unwrap().latency_samples(), 11);
}

#[test]
fn infinities_are_faults_too() {
    for poison in [f32::INFINITY, f32::NEG_INFINITY] {
        let mut chain = chain_of(Vec::new());
        chain.prepare_crosscutting(&ctx());
        assert_eq!(through(&mut chain, &[0.5, poison]), &[0.0, 0.0]);
        assert_eq!(chain.fault_count(), 1);
    }
}

#[test]
fn apply_routes_global_bypass_param_change_to_the_bypass_path() {
    let mut chain = chain_of(vec![plain(fixed_gain(6.0))]);
    chain.prepare_crosscutting(&ctx());
    chain.apply(change(GLOBAL_BYPASS_ID, 1.0));
    assert_eq!(through(&mut chain, &[0.1, 0.2, 0.3, 0.4]), &[0.1, 0.2, 0.3, 0.4]);
}

#[test]
fn apply_routes_global_bypass_off_value_back_through_the_stage_path() {
    let mut chain = chain_of(vec![plain(fixed_gain(6.0))]);
    chain.prepare_crosscutting(&ctx());
    chain.set_global_bypass(true);
    chain.apply(change(GLOBAL_BYPASS_ID, 0.0));
    let expected = 0.1 * db_to_linear(6.0);
    for x in through(&mut chain, &[0.1; 4]) {
        assert!((x - expected).abs() < 1e-4, "got {x}, expected {expected}");
    }
}

#[test]
fn apply_routes_output_ceiling_param_change_to_the_clamp() {
    let mut chain = chain_of(vec![plain(fixed_gain(20.0))]);
    chain.prepare_crosscutting(&ctx());
    chain.apply(change(OUTPUT_CEILING_DB_ID, -6.0));
    let ceiling = db_to_linear(-6.0);
    let out = through(&mut chain, &[1.0, -1.0]);
    assert!((out[0] - ceiling).abs() < 1e-5);
    assert!((out[1] - (-ceiling)).abs() < 1e-5);
}

struct PanicsOnApply;

impl Processor for PanicsOnApply {
    fn process(&mut self, _channels: &mut [Vec<f32>]) {}
    fn apply(&mut self, id: ParamId, _value: f32) {
        panic!("stage should never see a chain-level id, got {id:?}");
    }
}

#[test]
fn apply_does_not_broadcast_global_ids_to_stages() {
    let mut chain = chain_of(vec![plain(PanicsOnApply)]);
    chain.apply(change(GLOBAL_BYPASS_ID, 1.0));
    chain.apply(change(OUTPUT_CEILING_DB_ID, -3.0));
}

#[test]
fn a_chain_without_a_home_for_a_resource_leaves_it_with_the_caller() {
    let c = ctx();
    let mut chain = chain_of(vec![plain(fixed_gain(0.0))]);
    let mut offer = Some(Resource::nam(nam_slot(&weights(1), &c), c));
    chain.offer(&mut offer);
    let left = offer.expect("no stage here holds a model");
    assert_eq!(left.kind(), ResourceKind::Nam);
    assert_eq!(left.context(), c);
}

#[test]
fn a_real_non_allocating_stage_passes_clean() {
    let mut stage = Unit(fixed_gain(-6.0));
    let mut io = block_of(&[&[1.0; 4]]);
    stage.process(&mut io);
    let expected = db_to_linear(-6.0);
    for x in heard(&io, 0) {
        assert!((x - expected).abs() < 1e-4);
    }
}

#[test]
fn the_chain_reports_its_stages_and_then_its_own_faults() {
    let c = ctx();
    let mut chain = chain_of(vec![
        plain(GateDetector::new(SR)),
        plain(NanOnBlock { block: 0, seen: 0 }),
    ]);
    chain.prepare_crosscutting(&c);
    through(&mut chain, &[0.0; 4]);
    let mut storage = [TelemetryEntry { id: 0, value: s(0.0) }; 8];
    let mut sink = TelemetrySink::new(&mut storage);
    chain.telemetry(&mut sink);
    let entries = sink.entries();
    assert_eq!(entries.len(), 2);
    assert_eq!(entries[0].id, TELEMETRY_GAIN_REDUCTION_DB);
    assert_eq!(entries[1].id, TELEMETRY_FAULT_COUNT);
    assert_eq!(f(entries[1].value), 1.0);
}

// ---------------------------------------------------------------------------------------------
// The engine.
// ---------------------------------------------------------------------------------------------

/// Drives `engine` for `blocks` blocks of a continuous sine. `at_block` runs before the block of
/// that index.
fn run_sine(
    engine: &mut TestEngine,
    blocks: usize,
    freq_hz: f32,
    mut at_block: impl FnMut(usize),
) -> Vec<f32> {
    let mut out = Vec::with_capacity(blocks * BLOCK);
    let mut buf = vec![0.0f32; BLOCK];
    let mut phase = 0.0f32;
    let step = TAU * freq_hz / SR as f32;
    for b in 0..blocks {
        at_block(b);
        for x in buf.iter_mut() {
            *x = 0.5 * phase.sin();
            phase += step;
            if phase > TAU {
                phase -= TAU;
            }
        }
        let mut io = block_of(&[&buf]);
        engine.process(&mut io);
        out.extend(heard(&io, 0));
    }
    out
}

fn submit(worker: &mut WorkerEndpoint, command: Command) {
    assert!(worker.commands.try_push(command).is_ok(), "the command ring was unexpectedly full");
}

#[test]
fn prepared_resources_are_send_and_sync() {
    fn assert_send<T: Send>() {}
    assert_send::<TestEngine>();
    assert_send::<WorkerEndpoint>();
    assert_send::<Command>();
    assert_send::<Resource>();
}

fn no_dropout(samples: &[f32], what: &str) {
    for (i, window) in samples.chunks(32).enumerate() {
        let peak = peak(window);
        assert!(peak > 1e-4, "window {i} after the {what} went silent (peak {peak}): a dropout");
    }
}

#[test]
fn fr_nam_070_swapping_models_under_a_sine_has_no_discontinuity_or_dropout() {
    const DISCONTINUITY_FACTOR: f32 = 3.0;
    const BLOCKS: usize = 200; // ~267 ms, well past the 20 ms fade
    const SWAP_AT: usize = 100;
    let c = ctx();

    // Baselines: each model alone, settled, no swap.
    let (mut engine, mut worker) = default_engine(&c);
    submit(&mut worker, load_nam_command(&weights(1), &c));
    let baseline_a = run_sine(&mut engine, BLOCKS, 220.0, |_| {});
    let (mut engine, mut worker) = default_engine(&c);
    submit(&mut worker, load_nam_command(&weights(2), &c));
    let baseline_b = run_sine(&mut engine, BLOCKS, 220.0, |_| {});
    let baseline_jump = max_abs_first_difference(&baseline_a[SWAP_AT * BLOCK..])
        .max(max_abs_first_difference(&baseline_b[SWAP_AT * BLOCK..]));

    // Same again, but swapping to a different model partway through.
    let (mut engine, mut worker) = default_engine(&c);
    submit(&mut worker, load_nam_command(&weights(1), &c));
    let swapped = run_sine(&mut engine, BLOCKS, 220.0, |b| {
        if b == SWAP_AT {
            submit(&mut worker, load_nam_command(&weights(2), &c));
        }
    });
    let swap_jump = max_abs_first_difference(&swapped[SWAP_AT * BLOCK..]);
    assert!(
        swap_jump <= DISCONTINUITY_FACTOR * baseline_jump,
        "swap introduced a discontinuity of {swap_jump} against a no-swap baseline of \
         {baseline_jump} (allowed {DISCONTINUITY_FACTOR}x)"
    );
    no_dropout(&swapped[SWAP_AT * BLOCK..], "swap");
    assert!(
        worker.retire.try_pop().is_some(),
        "the outgoing slot should have arrived on the return ring"
    );
}

#[test]
fn fr_ir_060_swapping_irs_under_a_sine_has_no_discontinuity_or_dropout() {
    const DISCONTINUITY_FACTOR: f32 = 3.0;
    const BLOCKS: usize = 200;
    const SWAP_AT: usize = 100;
    let c = ctx();
    let (ir_a, ir_b) = (mono_taps(11, 512), mono_taps(12, 512));

    let (mut engine, mut worker) = default_engine(&c);
    submit(&mut worker, load_ir_command(&ir_a, &c));
    let baseline_a = run_sine(&mut engine, BLOCKS, 220.0, |_| {});
    let (mut engine, mut worker) = default_engine(&c);
    submit(&mut worker, load_ir_command(&ir_b, &c));
    let baseline_b = run_sine(&mut engine, BLOCKS, 220.0, |_| {});
    let baseline_jump = max_abs_first_difference(&baseline_a[SWAP_AT * BLOCK..])
        .max(max_abs_first_difference(&baseline_b[SWAP_AT * BLOCK..]));

    let (mut engine, mut worker) = default_engine(&c);
    submit(&mut worker, load_ir_command(&ir_a, &c));
    let swapped = run_sine(&mut engine, BLOCKS, 220.0, |b| {
        if b == SWAP_AT {
            submit(&mut worker, load_ir_command(&ir_b, &c));
        }
    });
    let swap_jump = max_abs_first_difference(&swapped[SWAP_AT * BLOCK..]);
    assert!(
        swap_jump <= DISCONTINUITY_FACTOR * baseline_jump,
        "IR swap introduced a discontinuity of {swap_jump} against a no-swap baseline of \
         {baseline_jump} (allowed {DISCONTINUITY_FACTOR}x)"
    );
    no_dropout(&swapped[SWAP_AT * BLOCK..], "IR swap");
    assert!(
        worker.retire.try_pop().is_some(),
        "the outgoing IR slot should have arrived on the return ring"
    );
}

#[test]
fn command_unload_nam_crossfades_to_dry_and_retires_the_slot() {
    const DISCONTINUITY_FACTOR: f32 = 3.0;
    const BLOCKS: usize = 200; // ~267 ms, well past the 20 ms fade
    const SWAP_AT: usize = 100;
    let c = ctx();

    let (mut engine, mut worker) = default_engine(&c);
    submit(&mut worker, load_nam_command(&weights(1), &c));
    let baseline_loaded = run_sine(&mut engine, BLOCKS, 220.0, |_| {});
    let (mut engine, _worker) = default_engine(&c);
    let baseline_empty = run_sine(&mut engine, BLOCKS, 220.0, |_| {});
    let baseline_jump = max_abs_first_difference(&baseline_loaded[SWAP_AT * BLOCK..])
        .max(max_abs_first_difference(&baseline_empty[SWAP_AT * BLOCK..]));

    let (mut engine, mut worker) = default_engine(&c);
    submit(&mut worker, load_nam_command(&weights(1), &c));
    let unloaded = run_sine(&mut engine, BLOCKS, 220.0, |b| {
        if b == SWAP_AT {
            submit(&mut worker, Command::Unload(ResourceKind::Nam));
        }
    });
    let unload_jump = max_abs_first_difference(&unloaded[SWAP_AT * BLOCK..]);
    assert!(
        unload_jump <= DISCONTINUITY_FACTOR * baseline_jump,
        "unload introduced a discontinuity of {unload_jump} against a baseline of \
         {baseline_jump} (allowed {DISCONTINUITY_FACTOR}x)"
    );
    no_dropout(&unloaded[SWAP_AT * BLOCK..], "unload");
    assert!(
        worker.retire.try_pop().is_some(),
        "the unloaded slot should have arrived on the return ring"
    );
}

#[test]
fn command_unload_ir_crossfades_to_dry_and_retires_the_slot() {
    const DISCONTINUITY_FACTOR: f32 = 3.0;
    const BLOCKS: usize = 200;
    const SWAP_AT: usize = 100;
    let c = ctx();
    let taps = mono_taps(11, 512);

    let (mut engine, mut worker) = default_engine(&c);
    submit(&mut worker, load_ir_command(&taps, &c));
    let baseline_loaded = run_sine(&mut engine, BLOCKS, 220.0, |_| {});
    let (mut engine, _worker) = default_engine(&c);
    let baseline_empty = run_sine(&mut engine, BLOCKS, 220.0, |_| {});
    let baseline_jump = max_abs_first_difference(&baseline_loaded[SWAP_AT * BLOCK..])
        .max(max_abs_first_difference(&baseline_empty[SWAP_AT * BLOCK..]));

    let (mut engine, mut worker) = default_engine(&c);
    submit(&mut worker, load_ir_command(&taps, &c));
    let unloaded = run_sine(&mut engine, BLOCKS, 220.0, |b| {
        if b == SWAP_AT {
            submit(&mut worker, Command::Unload(ResourceKind::Ir));
        }
    });
    let unload_jump = max_abs_first_difference(&unloaded[SWAP_AT * BLOCK..]);
    assert!(
        unload_jump <= DISCONTINUITY_FACTOR * baseline_jump,
        "IR unload introduced a discontinuity of {unload_jump} against a baseline of \
         {baseline_jump} (allowed {DISCONTINUITY_FACTOR}x)"
    );
    no_dropout(&unloaded[SWAP_AT * BLOCK..], "IR unload");
    assert!(
        worker.retire.try_pop().is_some(),
        "the unloaded IR slot should have arrived on the return ring"
    );
}

fn split_with(c: &PrepareContext, retire: usize) -> (TestEngine, WorkerEndpoint) {
    split(
        default_chain(c),
        RingCapacities { commands: 16, retire, telemetry: 16 },
        ENGINE_IDS,
    )
}

#[test]
fn a_never_drained_return_ring_retains_memory_and_audio_continues() {
    const BLOCKS: usize = 400;
    let c = ctx();
    let (mut engine, mut worker) = split_with(&c, RETIRE_HEADROOM_PER_OFFER);

    let models: Vec<Arc<Weights>> = (0..4).map(|i| weights(100 + i)).collect();
    let mut submitted = 0usize;
    let out = run_sine(&mut engine, BLOCKS, 220.0, |b| {
        if b % 60 == 10 && submitted < models.len() {
            // May be refused once the command ring backs up; that is the point.
            let _ = worker.commands.try_push(load_nam_command(&models[submitted], &c));
            submitted += 1;
        }
    });
    for (i, x) in out.iter().enumerate() {
        assert!(x.is_finite(), "sample {i} was not finite under back-pressure");
    }

    // A model actually installed.
    let (mut idle_engine, _idle_worker) = default_engine(&c);
    let idle = run_sine(&mut idle_engine, BLOCKS, 220.0, |_| {});
    let difference = max_abs_difference(&out, &idle);
    assert!(difference > 1e-3, "no handover happened, so nothing was degraded ({difference})");

    assert!(
        engine.deferred_blocks() > 0,
        "a two-deep, never-drained return ring should have stalled the drain"
    );

    // Nothing was freed by the audio thread: every model is still reachable from the engine.
    for (i, m) in models.iter().take(submitted).enumerate() {
        assert!(
            Arc::strong_count(m) >= 2,
            "model {i} is held only by the test ({} references)",
            Arc::strong_count(m)
        );
    }

    // Draining the worker end releases the backlog and normal service resumes.
    let stuck = worker.commands.slots();
    while worker.retire.try_pop().is_some() {}
    let after = run_sine(&mut engine, 60, 220.0, |_| {});
    assert!(after.iter().all(|x| x.is_finite()));
    assert!(
        worker.commands.slots() > stuck,
        "draining the return ring must let the stalled drain make progress again"
    );
}

#[test]
fn a_retire_capacity_below_one_offers_headroom_does_not_stall_the_drain() {
    let c = ctx();
    let (mut engine, mut worker) = split_with(&c, 1);

    let empty = worker.commands.slots();
    submit(&mut worker, load_nam_command(&weights(9), &c));
    submit(&mut worker, Command::Param(change(OUTPUT_CEILING_DB_ID, -20.0)));

    let mut io = block_of(&[&[0.8f32; BLOCK]]);
    engine.process(&mut io);

    let ceiling = db_to_linear(-20.0);
    for x in heard(&io, 0) {
        assert!(
            x.abs() <= ceiling + 1e-4,
            "sample {x} exceeded the -20 dB ceiling: the parameter change queued behind the load \
             never drained"
        );
    }
    assert_eq!(
        worker.commands.slots(),
        empty,
        "both commands should have drained, leaving the ring empty"
    );
}

#[test]
fn a_second_offer_in_the_same_block_reserves_its_own_retire_headroom() {
    let c = ctx();
    let (mut engine, mut worker) = split_with(&c, RETIRE_HEADROOM_PER_OFFER + 1);

    submit(&mut worker, load_nam_command(&weights(21), &c));
    submit(&mut worker, load_ir_command(&mono_taps(22, 512), &c));
    let before = worker.commands.slots();

    run_sine(&mut engine, 1, 220.0, |_| {});
    assert_eq!(
        worker.commands.slots() - before,
        1,
        "one block verified {RETIRE_HEADROOM_PER_OFFER} free slots and accepted two offers"
    );
    assert!(engine.deferred_blocks() > 0);

    // The reservation is per block, not sticky: the next block takes the second offer.
    run_sine(&mut engine, 1, 220.0, |_| {});
    assert_eq!(
        worker.commands.slots() - before,
        2,
        "the second offer should go through on the following block"
    );
}

#[test]
fn a_drain_that_exactly_empties_the_ring_is_not_a_deferral() {
    let c = ctx();
    let (mut engine, mut worker) = default_engine(&c);
    let empty = worker.commands.slots();
    for i in 0..MAX_COMMANDS_PER_BLOCK as u32 {
        submit(&mut worker, Command::Param(change(ParamId(i), 0.0)));
    }
    run_sine(&mut engine, 1, 220.0, |_| {});
    assert_eq!(worker.commands.slots(), empty, "the whole burst should have drained");
    assert_eq!(
        engine.deferred_blocks(),
        0,
        "a drain that consumed every queued command did not stop early"
    );

    // One more than the cap *is* a deferral, so the counter still means something.
    let (mut engine, mut worker) = default_engine(&c);
    for i in 0..MAX_COMMANDS_PER_BLOCK as u32 + 1 {
        submit(&mut worker, Command::Param(change(ParamId(i), 0.0)));
    }
    run_sine(&mut engine, 1, 220.0, |_| {});
    assert_eq!(engine.deferred_blocks(), 1);
}

#[test]
fn a_block_longer_than_the_prepared_maximum_is_refused_rather_than_panicking() {
    let c = ctx(); // max_block_size == BLOCK.
    let (mut engine, _worker) = default_engine(&c);

    let mut io = block_of(&[&[0.25f32; BLOCK * 2]]);
    engine.process(&mut io);
    assert_eq!(engine.rejected_blocks(), 1);
    for x in heard(&io, 0) {
        assert_eq!(x, 0.25, "a refused block must be left exactly as the caller handed it in");
    }

    let mut ok_io = block_of(&[&[0.25f32; BLOCK]]);
    engine.process(&mut ok_io);
    assert_eq!(engine.rejected_blocks(), 1);
}

#[test]
fn a_block_with_the_wrong_channel_count_is_refused_rather_than_panicking() {
    let c = ctx(); // Mono.
    let (mut engine, _worker) = default_engine(&c);

    let mut io = block_of(&[&[0.25f32; BLOCK], &[0.5f32; BLOCK]]);
    engine.process(&mut io);
    assert_eq!(engine.rejected_blocks(), 1);
    assert_eq!(heard(&io, 0)[0], 0.25);
    assert_eq!(heard(&io, 1)[0], 0.5);
}

#[test]
fn a_refused_block_leaves_its_commands_for_the_next() {
    let c = ctx();
    let (mut engine, mut worker) = default_engine(&c);
    submit(&mut worker, Command::Param(change(GLOBAL_BYPASS_ID, 1.0)));
    let waiting = worker.commands.slots();
    let mut io = block_of(&[&[0.25f32; BLOCK * 2]]);
    engine.process(&mut io);
    assert_eq!(worker.commands.slots(), waiting);
    run_sine(&mut engine, 1, 220.0, |_| {});
    assert_eq!(worker.commands.slots(), waiting + 1);
}

#[test]
fn the_command_drain_is_bounded_per_block() {
    let c = ctx();
    let (mut engine, mut worker) = default_engine(&c);
    for i in 0..200u32 {
        submit(&mut worker, Command::Param(change(ParamId(i), 0.0)));
    }
    let before = worker.commands.slots();
    run_sine(&mut engine, 1, 220.0, |_| {});
    let consumed = worker.commands.slots() - before;
    assert!(consumed > 0, "the drain should have consumed some commands");
    assert!(
        consumed <= MAX_COMMANDS_PER_BLOCK,
        "one block consumed {consumed} commands, above the {MAX_COMMANDS_PER_BLOCK} bound"
    );
}

#[test]
fn the_telemetry_scratch_holds_the_whole_real_chain() {
    let c = ctx_for(ChannelConfig::Stereo);
    let chain = default_chain(&c);
    let mut storage = vec![TelemetryEntry { id: 0, value: s(0.0) }; TELEMETRY_SCRATCH_ENTRIES];
    let mut sink = TelemetrySink::new(&mut storage);
    chain.telemetry(&mut sink);
    assert!(
        sink.len() < TELEMETRY_SCRATCH_ENTRIES,
        "the real stereo chain emits {} entries against a {TELEMETRY_SCRATCH_ENTRIES}-entry \
         scratch",
        sink.len()
    );
}

#[test]
fn telemetry_published_on_the_audio_thread_reaches_the_reader() {
    let c = ctx();
    let (mut engine, mut worker) = default_engine(&c);
    run_sine(&mut engine, 2, 220.0, |_| {});
    let mut out = [TelemetryEntry { id: 0, value: s(0.0) }; 128];
    let drain = worker.telemetry.drain(&mut out);
    assert!(drain.read > 0, "no telemetry reached the reader");
    assert!(
        out[..drain.read].iter().any(|e| e.id == TELEMETRY_DEFERRED_BLOCKS),
        "the engine's own readings should be present alongside the stages'"
    );
}

#[test]
fn the_engines_own_readings_close_every_block() {
    let c = ctx();
    let (mut engine, mut worker) = default_engine(&c);
    for i in 0..MAX_COMMANDS_PER_BLOCK as u32 + 1 {
        submit(&mut worker, Command::Param(change(ParamId(i), 0.0)));
    }
    run_sine(&mut engine, 1, 220.0, |_| {});
    let mut io = block_of(&[&[0.25f32; BLOCK * 2]]);
    engine.process(&mut io);
    let mut out = [TelemetryEntry { id: 0, value: s(0.0) }; 128];
    let drain = worker.telemetry.drain(&mut out);
    let own: Vec<(u32, f32)> =
        out[drain.read - 3..drain.read].iter().map(|e| (e.id, f(e.value))).collect();
    assert_eq!(
        own,
        vec![
            (TELEMETRY_DEFERRED_BLOCKS, 1.0),
            (TELEMETRY_RETIRE_BACKLOG, 0.0),
            (TELEMETRY_REJECTED_BLOCKS, 1.0),
        ]
    );
}

#[test]
fn apply_param_direct_takes_effect_on_the_next_process_call_like_a_ring_delivered_change() {
    let c = ctx();
    let (mut direct_engine, _worker) = default_engine(&c);
    let (mut ring_engine, mut ring_worker) = default_engine(&c);
    let change = change(OUTPUT_CEILING_DB_ID, -6.0);

    direct_engine.apply_param_direct(change);
    let direct_out = run_sine(&mut direct_engine, 4, 220.0, |_| {});

    submit(&mut ring_worker, Command::Param(change));
    let ring_out = run_sine(&mut ring_engine, 4, 220.0, |_| {});
    assert_eq!(direct_out, ring_out);
}

#[test]
fn reset_direct_does_what_a_ring_delivered_reset_does() {
    let c = ctx();
    let (mut direct_engine, _worker) = default_engine(&c);
    let (mut ring_engine, mut ring_worker) = default_engine(&c);
    run_sine(&mut direct_engine, 4, 220.0, |_| {});
    run_sine(&mut ring_engine, 4, 220.0, |_| {});

    direct_engine.reset_direct();
    let direct_out = run_sine(&mut direct_engine, 4, 220.0, |_| {});
    submit(&mut ring_worker, Command::Reset);
    let ring_out = run_sine(&mut ring_engine, 4, 220.0, |_| {});
    assert_eq!(direct_out, ring_out);
}

#[test]
fn command_param_toggles_global_bypass_end_to_end() {
    let c = ctx();
    let (mut engine, mut worker) = default_engine(&c);
    submit(&mut worker, Command::Param(change(TRIM_GAIN_DB_ID, -24.0)));
    submit(&mut worker, Command::Param(change(GLOBAL_BYPASS_ID, 1.0)));

    let mut io = block_of(&[&[0.5f32; BLOCK]]);
    engine.process(&mut io);
    for x in heard(&io, 0) {
        assert!(
            (x - 0.5).abs() < 1e-4,
            "expected unity-gain bypass passthrough, got {x} (the -24 dB trim must not have \
             applied)"
        );
    }
}

#[test]
fn command_param_sets_output_ceiling_end_to_end() {
    let c = ctx();
    let (mut engine, mut worker) = default_engine(&c);
    submit(&mut worker, Command::Param(change(OUTPUT_CEILING_DB_ID, -20.0)));

    let mut io = block_of(&[&[0.8f32; BLOCK]]);
    engine.process(&mut io);
    let ceiling = db_to_linear(-20.0);
    for x in heard(&io, 0) {
        assert!(x.abs() <= ceiling + 1e-4, "sample {x} exceeded the -20 dB output ceiling");
    }
}

#[test]
fn every_model_handed_over_comes_back_or_is_still_in_the_engine() {
    let c = ctx();
    let (mut engine, mut worker) = default_engine(&c);
    let models: Vec<Arc<Weights>> = (0..6).map(weights).collect();
    let mut returned = 0usize;
    for model in &models {
        submit(&mut worker, load_nam_command(model, &c));
        run_sine(&mut engine, 30, 220.0, |_| {});
        while let Some(resource) = worker.retire.try_pop() {
            assert_eq!(resource.kind(), ResourceKind::Nam);
            returned += 1;
        }
    }
    assert_eq!(returned, 5, "every model but the one in service has come back");
    assert_eq!(models.iter().filter(|m| Arc::strong_count(m) == 2).count(), 1);
    assert_eq!(Arc::strong_count(&models[5]), 2, "the last one is the one in service");
    assert!(!engine.retire_backlog());
}

#[test]
fn a_slot_prepared_for_another_context_is_handed_back_and_not_played() {
    let c = ctx();
    let other = ctx_at(SR, 32, ChannelConfig::Mono);
    let (mut engine, mut worker) = default_engine(&c);
    let (mut idle, _idle_worker) = default_engine(&c);
    submit(&mut worker, Command::Load(Resource::nam(nam_slot(&weights(3), &other), other)));
    let out = run_sine(&mut engine, 40, 220.0, |_| {});
    assert_eq!(out, run_sine(&mut idle, 40, 220.0, |_| {}));
    let back = worker.retire.try_pop().expect("the slot should have come back");
    assert_eq!(back.context(), other);
}

#[test]
fn an_offer_that_nothing_has_room_for_is_held_and_goes_back_before_anything_else() {
    let c = ctx();
    let (mut engine, mut worker) = split_with(&c, RETIRE_HEADROOM_PER_OFFER);
    let held = weights(71);
    for seed in [72, 73] {
        assert!(engine.retire.try_push(Resource::nam(nam_slot(&weights(seed), &c), c)).is_ok());
    }
    engine.stalled_offer = Some(Resource::nam(nam_slot(&held, &c), c));
    submit(&mut worker, Command::Param(change(OUTPUT_CEILING_DB_ID, -20.0)));
    let queued = worker.commands.slots();

    // The return ring is full, so the offer stays and holds up the drain.
    run_sine(&mut engine, 1, 220.0, |_| {});
    assert_eq!(Arc::strong_count(&held), 2);
    assert!(engine.stalled_offer.is_some());
    assert_eq!(worker.commands.slots(), queued);
    assert_eq!(engine.deferred_blocks(), 1);

    // With room for it, it goes back, and the drain goes on.
    while worker.retire.try_pop().is_some() {}
    run_sine(&mut engine, 1, 220.0, |_| {});
    assert!(engine.stalled_offer.is_none());
    assert_eq!(worker.commands.slots(), queued + 1);
    assert_eq!(engine.deferred_blocks(), 1);
    let back = worker.retire.try_pop().expect("the offer should have come back");
    assert_eq!(back.kind(), ResourceKind::Nam);
    drop(back);
    assert_eq!(Arc::strong_count(&held), 1);
}

#[test]
fn an_engine_around_a_chain_with_something_parked_starts_out_with_a_backlog() {
    let c = ctx();
    let mut chain = default_chain(&c);
    let first = weights(81);
    load_nam(&mut chain, &first, &c);
    let input = vec![0.1f32; 2_000];
    run_blocks(&mut chain, &input, BLOCK, |_, _| {});
    load_nam(&mut chain, &weights(82), &c);
    run_blocks(&mut chain, &input, BLOCK, |_, _| {});

    let caps = RingCapacities { commands: 16, retire: 4, telemetry: 16 };
    let (mut engine, mut worker) = split(chain, caps, ENGINE_IDS);
    assert!(engine.retire_backlog());
    assert_eq!(Arc::strong_count(&first), 2);
    run_sine(&mut engine, 1, 220.0, |_| {});
    assert!(!engine.retire_backlog());
    assert!(worker.retire.try_pop().is_some());
    assert_eq!(Arc::strong_count(&first), 1);
}

#[test]
fn both_halves_of_an_engine_hold_the_ends_of_the_same_rings() {
    let c = ctx();
    let (mut engine, mut worker) = default_engine(&c);
    let (mut other, _other_worker) = default_engine(&c);
    assert!(same_ring(&mut worker.commands, &mut engine.commands));
    assert!(same_ring(&mut engine.retire, &mut worker.retire));
    assert!(!same_ring(&mut worker.commands, &mut other.commands));
    engine.telemetry.push(TelemetryEntry { id: 5, value: s(0.5) });
    let mut out = [TelemetryEntry { id: 0, value: s(0.0) }; 4];
    assert_eq!(worker.telemetry.drain(&mut out).read, 1);
    assert_eq!(out[0].id, 5);
}

// ---------------------------------------------------------------------------------------------
// The stages.
// ---------------------------------------------------------------------------------------------

/// Something that processes blocks and can be told parameters.
trait Plays {
    fn play(&mut self, io: &mut StageIo);
}

impl Plays for GateStage<F32Math> {
    fn play(&mut self, io: &mut StageIo) {
        self.process(io);
    }
}

impl Plays for NamStage<F32Math> {
    fn play(&mut self, io: &mut StageIo) {
        self.process(io);
    }
}

impl Plays for IrStage<F32Math> {
    fn play(&mut self, io: &mut StageIo) {
        self.process(io);
    }
}

impl Plays for EqStage {
    fn play(&mut self, io: &mut StageIo) {
        self.process(io);
    }
}

impl Plays for OutStage {
    fn play(&mut self, io: &mut StageIo) {
        self.process(io);
    }
}

fn play_in_chunks(stage: &mut impl Plays, input: &[f32]) -> Vec<f32> {
    let mut out = Vec::with_capacity(input.len());
    for chunk in input.chunks(64) {
        let mut io = block_of(&[chunk]);
        stage.play(&mut io);
        out.extend(heard(&io, 0));
    }
    out
}

fn play_stereo_in_chunks(stage: &mut impl Plays, left: &[f32], right: &[f32]) -> [Vec<f32>; 2] {
    let mut out = [Vec::new(), Vec::new()];
    for (l, r) in left.chunks(64).zip(right.chunks(64)) {
        let mut io = block_of(&[l, r]);
        stage.play(&mut io);
        out[0].extend(heard(&io, 0));
        out[1].extend(heard(&io, 1));
    }
    out
}

fn process_constant_in_chunks(stage: &mut impl Plays, total: usize, value: f32) -> Vec<f32> {
    play_in_chunks(stage, &vec![value; total])
}

fn last(samples: &[f32]) -> f32 {
    *samples.last().unwrap()
}

// The noise gate.

fn gate_stage(config: ChannelConfig) -> GateStage<F32Math> {
    let c = ctx_for(config);
    gate_prep(&c).prepare(&c).unwrap()
}

fn gain_reduction(stage: &GateStage<F32Math>) -> f32 {
    let mut storage = [TelemetryEntry { id: 0, value: s(0.0) }; 4];
    let mut sink = TelemetrySink::new(&mut storage);
    stage.telemetry(&mut sink);
    let entries = sink.entries();
    let reduction = entries
        .iter()
        .find(|e| e.id == TELEMETRY_GAIN_REDUCTION_DB)
        .expect("gain reduction telemetry present");
    f(reduction.value)
}

#[test]
fn burst_opens_and_silence_closes_through_the_stage() {
    let mut stage = gate_stage(ChannelConfig::Mono);
    let loud = db_to_linear(-10.0);
    let tail = last(&process_constant_in_chunks(&mut stage, 48_000, loud));
    assert!((tail - loud).abs() < 1e-3, "expected fully open, got {tail} vs input {loud}");
    let reduction = gain_reduction(&stage);
    assert!(reduction > -0.1, "expected ~0 dB reduction while open, got {reduction}");

    let tail = last(&process_constant_in_chunks(&mut stage, 48_000, 0.0));
    assert!(tail.abs() < 1e-4, "expected silence once closed, got {tail}");
    let reduction = gain_reduction(&stage);
    assert!(reduction < -60.0, "expected heavy reduction while closed, got {reduction}");
}

#[test]
fn threshold_apply_actually_changes_detector_behaviour() {
    let signal = db_to_linear(-50.0);

    let mut default_threshold = gate_stage(ChannelConfig::Mono);
    let tail = last(&process_constant_in_chunks(&mut default_threshold, 48_000, signal));
    assert!((tail - signal).abs() < 1e-3, "expected open at the default threshold, got {tail}");

    let mut raised_threshold = gate_stage(ChannelConfig::Mono);
    raised_threshold.apply(change(GATE_IDS.threshold_db, -20.0));
    let tail = last(&process_constant_in_chunks(&mut raised_threshold, 48_000, signal));
    assert!(tail.abs() < 1e-4, "expected closed once the threshold is raised, got {tail}");
}

#[test]
fn hold_apply_actually_changes_detector_behaviour() {
    let loud = db_to_linear(-10.0);

    let mut default_hold = gate_stage(ChannelConfig::Mono);
    process_constant_in_chunks(&mut default_hold, 4800, loud); // 100 ms: fully open.
    process_constant_in_chunks(&mut default_hold, 480, 0.0); // 10 ms gap.
    let default_reduction = gain_reduction(&default_hold);
    assert!(
        default_reduction > -1.0,
        "expected default 30 ms hold to still be fully open at a 10 ms gap, got {default_reduction} dB"
    );

    let mut short_hold = gate_stage(ChannelConfig::Mono);
    short_hold.apply(change(GATE_IDS.hold_ms, 0.0));
    short_hold.apply(change(GATE_IDS.release_ms, 1.0));
    process_constant_in_chunks(&mut short_hold, 4800, loud); // 100 ms: fully open.
    process_constant_in_chunks(&mut short_hold, 480, 0.0); // 10 ms gap, no hold to absorb it.
    let short_reduction = gain_reduction(&short_hold);
    assert!(
        short_reduction < default_reduction - 1.0,
        "expected zero-hold stage to have released measurably more: {short_reduction} dB vs \
         {default_reduction} dB"
    );
}

#[test]
fn bypass_toggle_mid_signal_is_no_worse_than_a_15ms_linear_ramp() {
    let sample_rate = 48_000u32;
    let mut stage = gate_stage(ChannelConfig::Mono);
    stage.apply(change(GATE_IDS.threshold_db, 0.0));
    let dry_value = 0.5f32;
    stage.apply(change(GATE_IDS.enabled, 0.0));
    let settled_dry = last(&process_constant_in_chunks(&mut stage, 48_000, dry_value));
    stage.apply(change(GATE_IDS.enabled, 1.0));

    let out = process_constant_in_chunks(&mut stage, 4800, dry_value);
    let mut prev = settled_dry;
    let mut max_delta = 0.0f32;
    for &x in &out {
        max_delta = max_delta.max((x - prev).abs());
        prev = x;
    }
    let range = dry_value; // |wet - dry| = |0.0 - dry_value|
    let ideal_max_delta = range / (0.015 * sample_rate as f32);
    assert!(
        max_delta <= ideal_max_delta * 1.01,
        "max_delta={max_delta} exceeds the 15 ms linear ramp bound {ideal_max_delta}"
    );
    assert!(max_delta > 0.0, "bypass crossfade never advanced");
}

#[test]
fn stereo_duplicates_the_mono_core_gate_result_onto_every_channel() {
    let mut stage = gate_stage(ChannelConfig::Stereo);
    let loud = db_to_linear(-10.0);
    for _ in 0..800 {
        let mut io = block_of(&[&[loud; 64], &[loud; 64]]);
        stage.process(&mut io);
    }
    let mut io = block_of(&[&[loud; 64], &[loud; 64]]);
    stage.process(&mut io);
    let (left_out, right_out) = (heard(&io, 0), heard(&io, 1));
    for (l, r) in left_out.iter().zip(right_out.iter()) {
        assert!((l - r).abs() < 1e-6, "channels diverged: {l} vs {r}");
    }
    assert!(left_out.iter().any(|&x| x.abs() > 1e-3));
}

// The amp-model stage.

fn nam_stage(config: ChannelConfig) -> NamStage<F32Math> {
    nam_prep().prepare(&ctx_for(config)).unwrap()
}

fn load_model(stage: &mut NamStage<F32Math>, slot: Box<NamSlot>) {
    assert!(stage.load_model(slot).is_none(), "the stage refused the slot");
}

#[test]
fn nam_nothing_loaded_is_exact_passthrough() {
    let mut stage = nam_stage(ChannelConfig::Mono);
    let input = 0.37f32;
    let tail = last(&process_constant_in_chunks(&mut stage, 48_000, input));
    assert!(
        (tail - input).abs() < 1e-6,
        "expected exact passthrough with nothing loaded, got {tail} vs input {input}"
    );
}

fn play_in_blocks(stage: &mut impl Plays, input: &[f32], block: usize) -> Vec<f32> {
    let mut out = Vec::with_capacity(input.len());
    for chunk in input.chunks(block) {
        let mut io = block_of(&[chunk]);
        stage.play(&mut io);
        out.extend(heard(&io, 0));
    }
    out
}

#[test]
fn an_empty_amp_stage_gives_its_input_back_sample_for_sample() {
    let input = sine(3_000, 220.0, SR, 0.4);
    for block in [1usize, 13, 64] {
        let mut stage = nam_stage(ChannelConfig::Mono);
        assert_eq!(play_in_blocks(&mut stage, &input, block), input, "blocks of {block}");
    }
}

#[test]
fn an_empty_amp_stage_sounds_the_same_whatever_it_is_told() {
    let input = sine(3_000, 220.0, SR, 0.4);
    let updates = [
        change(NAM_IDS.enabled, 0.0),
        change(NAM_IDS.normalize_offset_db, 9.0),
        change(NAM_IDS.enabled, 1.0),
        change(NAM_IDS.normalize_enabled, 0.0),
    ];
    let mut stage = nam_stage(ChannelConfig::Mono);
    let mut out = Vec::with_capacity(input.len());
    for (k, chunk) in input.chunks(61).enumerate() {
        stage.apply(updates[k % updates.len()]);
        out.extend(play_in_blocks(&mut stage, chunk, 61));
    }
    assert_eq!(out, input);
}

#[test]
fn a_first_model_comes_in_on_the_same_frame_however_the_stream_is_divided() {
    let c = ctx();
    let input = sine(1_500, 220.0, SR, 0.25);
    for hz in [SR, 44_100] {
        let slot = nam_slot_at(&weights(4), hz, None, &c);
        let hold = slot.latency_samples() as usize;
        let mut whole: Option<Vec<f32>> = None;
        for block in [64usize, 13, 1] {
            let mut stage = nam_stage(ChannelConfig::Mono);
            load_model(&mut stage, nam_slot_at(&weights(4), hz, None, &c));
            let out = play_in_blocks(&mut stage, &input, block);
            assert_eq!(out[..=hold], input[..=hold], "{hz} Hz in blocks of {block}");
            let onset = out.iter().zip(&input).position(|(x, y)| x != y).unwrap();
            assert!(onset > hold && onset <= hold + 8, "{hz} Hz: frame {onset} after {hold}");
            match &whole {
                None => whole = Some(out),
                Some(first) => assert_eq!(&out, first, "{hz} Hz in blocks of {block}"),
            }
        }
    }
}

#[test]
fn load_model_settles_to_match_direct_process_block() {
    let c = ctx();
    let mut stage = nam_stage(ChannelConfig::Mono);
    let model = weights(4);
    let total = 48_000usize;
    load_model(&mut stage, nam_slot(&model, &c));

    let input: Vec<f32> = (0..total).map(|i| 0.2 * ((i as f32) * 0.01).sin()).collect();
    let stage_out = play_in_chunks(&mut stage, &input);
    let mut reference_out = input.clone();
    Model::of(&model).run(&mut reference_out);

    let settle = 19_200usize; // 400 ms.
    for i in settle..total {
        assert!(
            (stage_out[i] - reference_out[i]).abs() < 1e-5,
            "sample {i}: stage {} vs reference {}",
            stage_out[i],
            reference_out[i]
        );
    }
}

#[test]
fn nam_handover_crossfade_has_no_large_single_sample_jump() {
    let c = ctx();
    let mut stage = nam_stage(ChannelConfig::Mono);
    load_model(&mut stage, nam_slot(&weights(1), &c));
    // Settle the first handover and the bypass blend fully (well past both).
    process_constant_in_chunks(&mut stage, 48_000, 0.1);
    load_model(&mut stage, nam_slot(&weights(2), &c));

    let out = process_constant_in_chunks(&mut stage, 4800, 0.1);
    let max_delta = max_abs_first_difference(&out);
    assert!(
        max_delta < 0.5,
        "handover crossfade produced a jump of {max_delta}, expected a smooth fade"
    );
}

#[test]
fn disabled_stage_is_passthrough_even_with_a_model_loaded() {
    let mut stage = nam_stage(ChannelConfig::Mono);
    stage.apply(change(NAM_IDS.enabled, 0.0));
    load_model(&mut stage, nam_slot(&weights(1), &ctx()));
    let input = 0.42f32;
    let tail = last(&process_constant_in_chunks(&mut stage, 48_000, input));
    assert!((tail - input).abs() < 1e-4, "got {tail} vs {input}");
}

#[test]
fn latency_reports_the_active_slots_resampler_latency() {
    let c = ctx();
    let mut stage_1_to_1 = nam_stage(ChannelConfig::Mono);
    assert_eq!(stage_1_to_1.latency_samples(), 0);
    load_model(&mut stage_1_to_1, nam_slot(&weights(1), &c));
    process_constant_in_chunks(&mut stage_1_to_1, 48_000, 0.0); // settle the handover.
    assert_eq!(
        stage_1_to_1.latency_samples(),
        0,
        "a same-rate model must report zero added latency"
    );

    let mut stage_resampled = nam_stage(ChannelConfig::Mono);
    load_model(&mut stage_resampled, nam_slot_at(&weights(1), 44_100, None, &c));
    process_constant_in_chunks(&mut stage_resampled, 48_000, 0.0);
    assert!(
        stage_resampled.latency_samples() > 0,
        "a resampled model must report nonzero added latency"
    );
    assert_eq!(stage_resampled.latency_samples(), 640);
}

#[test]
fn resampled_path_runs_many_varying_blocks_without_allocating_or_panicking() {
    let mut stage = nam_stage(ChannelConfig::Mono);
    load_model(&mut stage, nam_slot_at(&weights(1), 44_100, None, &ctx()));
    let block_sizes = [64usize, 1, 37, 64, 3, 64, 64, 17];
    for (i, &n) in block_sizes.iter().cycle().take(200).enumerate() {
        let mut io = block_of(&[&vec![0.1 * ((i as f32) * 0.05).sin(); n]]);
        stage.process(&mut io);
        for x in heard(&io, 0) {
            assert!(x.is_finite(), "non-finite output at iteration {i}");
        }
    }
}

const TARGET_LOUDNESS_LUFS: f32 = -18.0;
const NORMALIZE_SETTLE_SAMPLES: usize = 19_200;

/// A slot for a model that is scaled by `head_scale` and declares a loudness, or none.
fn slot_with_loudness(head_scale: f32, loudness: Option<f32>) -> Box<NamSlot> {
    let model = Arc::new(Weights { drive: 1.5, memory: 0.1, scale: head_scale });
    let gain = loudness.map(|declared| TARGET_LOUDNESS_LUFS - declared);
    nam_slot_at(&model, SR, gain, &ctx())
}

fn sine_signal(total: usize) -> Vec<f32> {
    (0..total).map(|i| 0.2 * ((i as f32) * 0.01).sin()).collect()
}

fn rms_db(samples: &[f32]) -> f32 {
    let sum_sq: f64 = samples.iter().map(|&x| f64::from(x) * f64::from(x)).sum();
    linear_to_db((sum_sq / samples.len() as f64).sqrt() as f32)
}

fn settled_level(stage: &mut NamStage<F32Math>, slot: Box<NamSlot>) -> f32 {
    load_model(stage, slot);
    let out = play_in_chunks(stage, &sine_signal(48_000));
    rms_db(&out[NORMALIZE_SETTLE_SAMPLES..])
}

#[test]
fn normalization_enabled_brings_differently_declared_models_within_one_lu() {
    let quiet_level =
        settled_level(&mut nam_stage(ChannelConfig::Mono), slot_with_loudness(0.5, Some(-20.0)));
    let loud_level =
        settled_level(&mut nam_stage(ChannelConfig::Mono), slot_with_loudness(1.0, Some(-14.0)));
    assert!(
        (quiet_level - loud_level).abs() <= 1.0,
        "quiet_level={quiet_level} loud_level={loud_level}, expected within 1 LU"
    );
}

#[test]
fn normalization_disabled_leaves_models_at_their_original_relative_levels() {
    let mut quiet = nam_stage(ChannelConfig::Mono);
    let mut loud = nam_stage(ChannelConfig::Mono);
    quiet.apply(change(NAM_IDS.normalize_enabled, 0.0));
    loud.apply(change(NAM_IDS.normalize_enabled, 0.0));
    let quiet_level = settled_level(&mut quiet, slot_with_loudness(0.5, Some(-20.0)));
    let loud_level = settled_level(&mut loud, slot_with_loudness(1.0, Some(-14.0)));
    let gap = loud_level - quiet_level;
    assert!(
        (gap - 6.02).abs() < 0.5,
        "expected the raw ~6.02 dB gap to survive with normalisation disabled, got {gap}"
    );
}

#[test]
fn offset_parameter_shifts_the_applied_gain_by_the_expected_amount() {
    let baseline =
        settled_level(&mut nam_stage(ChannelConfig::Mono), slot_with_loudness(0.5, Some(-20.0)));
    let mut offset_stage = nam_stage(ChannelConfig::Mono);
    offset_stage.apply(change(NAM_IDS.normalize_offset_db, 6.0));
    let offset = settled_level(&mut offset_stage, slot_with_loudness(0.5, Some(-20.0)));
    let delta = offset - baseline;
    assert!(
        (delta - 6.0).abs() < 0.5,
        "expected a +6 dB shift from the offset parameter, got {delta}"
    );
}

#[test]
fn model_with_no_declared_loudness_gets_zero_normalization_gain() {
    let on_level = settled_level(&mut nam_stage(ChannelConfig::Mono), slot_with_loudness(0.5, None));
    let mut normalize_off = nam_stage(ChannelConfig::Mono);
    normalize_off.apply(change(NAM_IDS.normalize_enabled, 0.0));
    let off_level = settled_level(&mut normalize_off, slot_with_loudness(0.5, None));
    assert!(
        (on_level - off_level).abs() < 0.05,
        "expected zero normalisation gain regardless of the enable flag, got on={on_level} \
         off={off_level}"
    );
}

#[test]
fn a_second_load_displaces_the_one_still_fading_in_and_a_third_is_refused() {
    let c = ctx();
    let mut stage = nam_stage(ChannelConfig::Mono);
    load_model(&mut stage, nam_slot(&weights(1), &c));
    load_model(&mut stage, nam_slot(&weights(2), &c));
    assert!(stage.handover.parked.is_some(), "the displaced slot is parked, not dropped");
    let refused = stage.load_model(nam_slot(&weights(3), &c));
    assert!(refused.is_some(), "with the pen full the next slot is handed back");
}

#[test]
fn a_stereo_block_through_a_model_sounds_the_same_on_both_channels() {
    let c = ctx_for(ChannelConfig::Stereo);
    let mut stage = nam_stage(ChannelConfig::Stereo);
    load_model(&mut stage, nam_slot(&weights(1), &c));
    let left = sine(9_600, 220.0, SR, 0.3);
    let [l, r] = play_stereo_in_chunks(&mut stage, &left, &left);
    assert_eq!(l, r);
    assert!(peak(&l) > 1e-3);
}

// The queues around a model at another rate.

#[test]
fn pipeline_latency_is_both_delays_and_one_chunk() {
    let figures =
        ConverterFigures { engine_block: 320, into_model_delay: 147, out_of_model_delay: 160 };
    let rate = |hz: u32| SampleRate::new(hz).unwrap();
    assert_eq!(pipeline_latency_samples(figures, rate(48_000), rate(44_100)), 160 + 160 + 320);
    // 3 frames at 44.1 kHz are 1.5 at 22.05 kHz, which rounds up.
    let figures = ConverterFigures { engine_block: 1, into_model_delay: 3, out_of_model_delay: 0 };
    assert_eq!(pipeline_latency_samples(figures, rate(22_050), rate(44_100)), 2 + 1);
    let figures = ConverterFigures {
        engine_block: usize::MAX,
        into_model_delay: usize::MAX,
        out_of_model_delay: usize::MAX,
    };
    assert_eq!(pipeline_latency_samples(figures, rate(48_000), rate(44_100)), u32::MAX);
}

#[test]
fn the_queues_delay_by_one_chunk_whatever_the_blocks() {
    const CHUNK: usize = 10;
    let figures =
        ConverterFigures { engine_block: CHUNK, into_model_delay: 0, out_of_model_delay: 0 };
    let mut queues = SlotResampler::new(
        SampleRate::new(48_000).unwrap(),
        SampleRate::new(44_100).unwrap(),
        64,
        figures,
    );
    let mut core = boxed(fixed_gain(0.0));
    let input: Vec<f32> = (1..=500).map(|n| n as f32).collect();
    let mut out = Vec::new();
    let mut offset = 0;
    for n in [1usize, 9, 10, 11, 3, 64, 2, 37, 20].iter().cycle() {
        let n = (*n).min(input.len() - offset);
        if n == 0 {
            break;
        }
        let mut io = block_of(&[&input[offset..offset + n]]);
        queues.process(&mut core, &mut io);
        out.extend(heard(&io, 0));
        offset += n;
    }
    assert!(out[..CHUNK].iter().all(|x| *x == 0.0));
    assert_eq!(out[CHUNK..], input[..input.len() - CHUNK]);
    assert_eq!(queues.latency_samples(), CHUNK as u32);

    queues.reset();
    let mut io = block_of(&[&input[..CHUNK]]);
    queues.process(&mut core, &mut io);
    assert!(heard(&io, 0).iter().all(|x| *x == 0.0), "a reset primes the queues again");
}

#[test]
fn handovers_last_twenty_milliseconds() {
    assert_eq!(HANDOVER_CROSSFADE_MS, 20);
    for (hz, frames) in [(48_000u32, 960u32), (44_100, 882), (96_000, 1_920), (11_025, 221), (1, 1)] {
        assert_eq!(handover_samples(hz), frames, "{hz} Hz");
    }
}

// The cabinet stage.

fn ir_stage(config: ChannelConfig) -> IrStage<F32Math> {
    let c = ctx_for(config);
    ir_prep(&c).prepare(&c).unwrap()
}

fn taps(channels: &[&[f32]]) -> Taps {
    Arc::new(channels.iter().map(|t| t.to_vec()).collect())
}

fn load_taps(stage: &mut IrStage<F32Math>, channels: &[&[f32]]) {
    let slot = ir_slot(&taps(channels), &ctx());
    assert!(stage.load_ir(slot).is_none(), "the stage refused the slot");
}

#[test]
fn a_channel_sounds_its_own_or_the_last_produced_one() {
    assert_eq!(wet_channel_index(0, 1), 0);
    assert_eq!(wet_channel_index(1, 1), 0);
    assert_eq!(wet_channel_index(0, 2), 0);
    assert_eq!(wet_channel_index(1, 2), 1);
}

#[test]
fn ir_nothing_loaded_is_exact_passthrough() {
    let mut stage = ir_stage(ChannelConfig::Mono);
    let input = 0.37f32;
    let tail = last(&process_constant_in_chunks(&mut stage, 48_000, input));
    assert!(
        (tail - input).abs() < 1e-6,
        "expected exact passthrough with nothing loaded, got {tail} vs input {input}"
    );
}

#[test]
fn loaded_ir_matches_direct_convolution_once_settled() {
    let mut stage = ir_stage(ChannelConfig::Mono);
    let h = [0.6f32, -0.2, 0.1, 0.05, -0.03];
    load_taps(&mut stage, &[&h]);
    let total = 48_000usize;
    let input: Vec<f32> = (0..total).map(|i| 0.2 * ((i as f32) * 0.01).sin()).collect();
    let stage_out = play_in_chunks(&mut stage, &input);
    let reference = direct_convolve(&h, &input);
    let settle = 19_200usize;
    for i in settle..total {
        assert!(
            (stage_out[i] - reference[i]).abs() < 1e-4,
            "sample {i}: stage {} vs reference {}",
            stage_out[i],
            reference[i]
        );
    }
}

#[test]
fn tail_samples_reports_active_irs_length() {
    let mut stage = ir_stage(ChannelConfig::Mono);
    assert_eq!(stage.tail_samples(), 0, "nothing loaded -> zero tail");
    load_taps(&mut stage, &[&[0.1f32; 300]]);
    process_constant_in_chunks(&mut stage, 48_000, 0.0); // settle the handover.
    assert_eq!(stage.tail_samples(), 300);
}

#[test]
fn mono_ir_into_stereo_chain_is_dual_mono() {
    let mut stage = ir_stage(ChannelConfig::Stereo);
    load_taps(&mut stage, &[&[0.5f32, 0.0, 0.25, -0.1]]);
    let total = 48_000usize;
    let input: Vec<f32> =
        (0..total).map(|i| 0.2 * (((i / 64 * 64) as f32) * 0.01).sin()).collect();
    let [left_out, right_out] = play_stereo_in_chunks(&mut stage, &input, &input);
    let settle = 19_200usize;
    for i in settle..total {
        assert!(
            (left_out[i] - right_out[i]).abs() < 1e-6,
            "sample {i}: dual-mono channels diverged, left {} vs right {}",
            left_out[i],
            right_out[i]
        );
    }
}

#[test]
fn stereo_ir_into_stereo_chain_channels_are_independent() {
    let mut stage = ir_stage(ChannelConfig::Stereo);
    let left_h = [1.0f32, 0.0, 0.0, 0.0];
    let right_h = [0.0f32, 0.0, 1.0, 0.0]; // a different delay on the right channel.
    load_taps(&mut stage, &[&left_h, &right_h]);
    let total = 48_000usize;
    let input: Vec<f32> = (0..total).map(|i| 0.2 * ((i as f32) * 0.03).sin()).collect();
    let [left_out, right_out] = play_stereo_in_chunks(&mut stage, &input, &input);
    let expected_left = direct_convolve(&left_h, &input);
    let expected_right = direct_convolve(&right_h, &input);
    let settle = 19_200usize; // 400 ms.
    for i in settle..total {
        assert!((left_out[i] - expected_left[i]).abs() < 1e-4, "left sample {i}");
        assert!((right_out[i] - expected_right[i]).abs() < 1e-4, "right sample {i}");
    }
    let any_diff = (settle..total).any(|i| (left_out[i] - right_out[i]).abs() > 1e-3);
    assert!(any_diff, "expected left/right channels to differ");
}

#[test]
fn a_stereo_response_in_a_mono_chain_sounds_its_first_channel() {
    let mut stage = ir_stage(ChannelConfig::Mono);
    load_taps(&mut stage, &[&[0.5f32], &[0.25f32]]);
    let tail = last(&process_constant_in_chunks(&mut stage, 48_000, 0.4));
    assert!((tail - 0.2).abs() < 1e-5, "{tail}");
}

#[test]
fn ir_handover_crossfade_has_no_large_single_sample_jump() {
    let mut stage = ir_stage(ChannelConfig::Mono);
    load_taps(&mut stage, &[&[0.4f32, 0.1, -0.2]]);
    process_constant_in_chunks(&mut stage, 48_000, 0.1);
    load_taps(&mut stage, &[&[-0.3f32, 0.2, 0.15]]);
    let out = process_constant_in_chunks(&mut stage, 4_800, 0.1);
    let max_delta = max_abs_first_difference(&out);
    assert!(
        max_delta < 0.5,
        "handover crossfade produced a jump of {max_delta}, expected a smooth fade"
    );
}

#[test]
fn disabled_stage_is_passthrough_even_with_an_ir_loaded() {
    let mut stage = ir_stage(ChannelConfig::Mono);
    stage.apply(change(IR_IDS.enabled, 0.0));
    load_taps(&mut stage, &[&[0.9f32, 0.3, -0.1]]);
    let input = 0.42f32;
    let tail = last(&process_constant_in_chunks(&mut stage, 48_000, input));
    assert!((tail - input).abs() < 1e-4, "got {tail} vs {input}");
}

/// A cabinet stage with a one-tap response, settled.
fn identity_stage() -> IrStage<F32Math> {
    let mut stage = ir_stage(ChannelConfig::Mono);
    load_taps(&mut stage, &[&[1.0f32]]);
    process_constant_in_chunks(&mut stage, 48_000, 0.0); // settle fully wet.
    stage
}

fn process_alternating_tail(stage: &mut impl Plays, total: usize, value: f32) -> (f32, f32) {
    let input: Vec<f32> = (0..total).map(|n| if n % 2 == 0 { value } else { -value }).collect();
    let out = play_in_chunks(stage, &input);
    (last(&out), last(&input))
}

#[test]
fn low_cut_enabled_blocks_dc_and_passes_near_nyquist() {
    let mut stage = identity_stage();
    stage.apply(change(IR_IDS.low_cut_enabled, 1.0));
    let dc = 0.2f32;
    let dc_tail = last(&process_constant_in_chunks(&mut stage, 48_000, dc));
    assert!((dc_tail / dc).abs() < 1e-2, "expected DC heavily attenuated, got {}", dc_tail / dc);
    let (nyq_out, nyq_in) = process_alternating_tail(&mut stage, 4_800, dc);
    let nyq_db = linear_to_db((nyq_out / nyq_in).abs());
    assert!(nyq_db.abs() < 0.3, "nyquist_db={nyq_db}, expected ~0 (passed)");
}

#[test]
fn high_cut_enabled_passes_dc_and_blocks_near_nyquist() {
    let mut stage = identity_stage();
    stage.apply(change(IR_IDS.high_cut_enabled, 1.0));
    let dc = 0.2f32;
    let dc_tail = last(&process_constant_in_chunks(&mut stage, 48_000, dc));
    let dc_db = linear_to_db(dc_tail / dc);
    assert!(dc_db.abs() < 0.3, "dc_db={dc_db}, expected ~0 (passed)");
    let (nyq_out, nyq_in) = process_alternating_tail(&mut stage, 4_800, dc);
    assert!((nyq_out / nyq_in).abs() < 1e-2, "got ratio {}", nyq_out / nyq_in);
}

#[test]
fn level_db_is_applied_once_settled() {
    let mut stage = identity_stage();
    stage.apply(change(IR_IDS.level_db, -6.0));
    let dc = 0.3f32;
    let dc_tail = last(&process_constant_in_chunks(&mut stage, 48_000, dc));
    let expected = dc * db_to_linear(-6.0);
    assert!((dc_tail - expected).abs() < 1e-3, "got {dc_tail}, expected {expected}");
}

#[test]
fn steady_state_output_is_finite_with_everything_engaged() {
    let mut stage = ir_stage(ChannelConfig::Stereo);
    let taps = taps(&[&[0.6f32, 0.1, -0.05], &[0.4f32, -0.2, 0.1]]);
    assert!(stage.load_ir(ir_slot(&taps, &ctx_for(ChannelConfig::Stereo))).is_none());
    stage.apply(change(IR_IDS.low_cut_enabled, 1.0));
    stage.apply(change(IR_IDS.high_cut_enabled, 1.0));
    stage.apply(change(IR_IDS.level_db, -3.0));
    for _ in 0..400 {
        let mut io = block_of(&[&[0.2f32; 64], &[0.2f32; 64]]);
        stage.process(&mut io);
        for ch in 0..2 {
            for x in heard(&io, ch) {
                assert!(x.is_finite(), "non-finite output in steady state");
            }
        }
    }
}

#[test]
fn a_cut_is_a_butterworth_filter_while_it_is_switched_on() {
    let mut filters = ir_defaults();
    assert_eq!(filters.low_cut_target(), FilterTarget::Identity);
    assert_eq!(filters.apply(&IR_IDS, change(IR_IDS.low_cut_freq_hz, 120.0)), IrRetarget::LowCut);
    assert_eq!(filters.apply(&IR_IDS, change(IR_IDS.low_cut_enabled, 1.0)), IrRetarget::LowCut);
    assert_eq!(
        filters.low_cut_target(),
        FilterTarget::Design {
            kind: FilterKind::HighPass,
            freq_hz: s(120.0),
            q: FilterQ::Butterworth,
            gain_db: s(0.0),
        }
    );
    assert_eq!(filters.high_cut_target(), FilterTarget::Identity);
    assert_eq!(filters.apply(&IR_IDS, change(IR_IDS.high_cut_enabled, 1.0)), IrRetarget::HighCut);
    assert_eq!(filters.apply(&IR_IDS, change(IR_IDS.high_cut_freq_hz, 5e3)), IrRetarget::HighCut);
    assert_eq!(
        filters.high_cut_target(),
        FilterTarget::Design {
            kind: FilterKind::LowPass,
            freq_hz: s(5e3),
            q: FilterQ::Butterworth,
            gain_db: s(0.0),
        }
    );
    assert_eq!(filters.apply(&IR_IDS, change(IR_IDS.level_db, -3.0)), IrRetarget::Level);
    assert_eq!(filters.apply(&IR_IDS, change(ParamId(5), -3.0)), IrRetarget::Nothing);
}

// The equaliser.

fn eq_stage(config: ChannelConfig) -> EqStage {
    let ctx = ctx_for(config);
    eq_prep(&ctx).prepare(&ctx).unwrap()
}

/// The rate the equaliser is measured at.
const TEST_SR: f64 = 48_000.0;
/// Discarded before measuring: 100 ms.
const PROBE_WARMUP: usize = 4_800;
/// The measurement window: 0.5 s, a whole number of cycles of any even frequency.
const PROBE_WINDOW: usize = 24_000;
const PROBE_AMPLITUDE: f32 = 0.2;
const ANALYTIC_TOLERANCE_DB: f64 = 0.1;
const HIGH_PASS_LOW_PASS_Q: f64 = std::f64::consts::FRAC_1_SQRT_2;
const SHELF_Q_UNUSED: f64 = std::f64::consts::FRAC_1_SQRT_2;

fn probe_tone(frames: usize, probe_hz: f64) -> Vec<f32> {
    (0..frames)
        .map(|n| {
            (f64::from(PROBE_AMPLITUDE)
                * (std::f64::consts::TAU * probe_hz * n as f64 / TEST_SR).sin()) as f32
        })
        .collect()
}

fn single_bin_amplitude(samples: &[f32], freq_hz: f64) -> f64 {
    let (mut re, mut im) = (0.0f64, 0.0f64);
    for (n, &x) in samples.iter().enumerate() {
        let w = std::f64::consts::TAU * freq_hz * n as f64 / TEST_SR;
        re += f64::from(x) * w.cos();
        im += f64::from(x) * w.sin();
    }
    2.0 * (re * re + im * im).sqrt() / samples.len() as f64
}

fn measure_magnitude_db(stage: &mut EqStage, probe_hz: f64) -> f64 {
    assert!(probe_hz.fract() == 0.0 && (probe_hz as u64) % 2 == 0, "got {probe_hz}");
    let out = play_in_chunks(stage, &probe_tone(PROBE_WARMUP + PROBE_WINDOW, probe_hz));
    let measured = single_bin_amplitude(&out[PROBE_WARMUP..], probe_hz);
    20.0 * (measured / f64::from(PROBE_AMPLITUDE)).log10()
}

/// The magnitude of one second-order section at `probe_hz`, in closed form.
fn analytic_magnitude_db(
    kind: FilterKind,
    corner_hz: f64,
    q: f64,
    gain_db: f64,
    probe_hz: f64,
) -> f64 {
    let w0 = std::f64::consts::TAU * corner_hz / TEST_SR;
    let (cos_w0, sin_w0) = (w0.cos(), w0.sin());
    let alpha = sin_w0 / (2.0 * q);
    let a = 10f64.powf(gain_db / 40.0);
    let sqrt_a = a.sqrt();
    // A shelf's `alpha` for a slope of 1.
    let alpha_s = sin_w0 * std::f64::consts::SQRT_2 / 2.0;

    let (b0, b1, b2, a0, a1, a2) = match kind {
        FilterKind::LowPass => (
            (1.0 - cos_w0) / 2.0,
            1.0 - cos_w0,
            (1.0 - cos_w0) / 2.0,
            1.0 + alpha,
            -2.0 * cos_w0,
            1.0 - alpha,
        ),
        FilterKind::HighPass => (
            (1.0 + cos_w0) / 2.0,
            -(1.0 + cos_w0),
            (1.0 + cos_w0) / 2.0,
            1.0 + alpha,
            -2.0 * cos_w0,
            1.0 - alpha,
        ),
        FilterKind::Peaking => (
            1.0 + alpha * a,
            -2.0 * cos_w0,
            1.0 - alpha * a,
            1.0 + alpha / a,
            -2.0 * cos_w0,
            1.0 - alpha / a,
        ),
        FilterKind::LowShelf => (
            a * ((a + 1.0) - (a - 1.0) * cos_w0 + 2.0 * sqrt_a * alpha_s),
            2.0 * a * ((a - 1.0) - (a + 1.0) * cos_w0),
            a * ((a + 1.0) - (a - 1.0) * cos_w0 - 2.0 * sqrt_a * alpha_s),
            (a + 1.0) + (a - 1.0) * cos_w0 + 2.0 * sqrt_a * alpha_s,
            -2.0 * ((a - 1.0) + (a + 1.0) * cos_w0),
            (a + 1.0) + (a - 1.0) * cos_w0 - 2.0 * sqrt_a * alpha_s,
        ),
        FilterKind::HighShelf => (
            a * ((a + 1.0) + (a - 1.0) * cos_w0 + 2.0 * sqrt_a * alpha_s),
            -2.0 * a * ((a - 1.0) + (a + 1.0) * cos_w0),
            a * ((a + 1.0) + (a - 1.0) * cos_w0 - 2.0 * sqrt_a * alpha_s),
            (a + 1.0) - (a - 1.0) * cos_w0 + 2.0 * sqrt_a * alpha_s,
            2.0 * ((a - 1.0) - (a + 1.0) * cos_w0),
            (a + 1.0) - (a - 1.0) * cos_w0 - 2.0 * sqrt_a * alpha_s,
        ),
    };

    let w = std::f64::consts::TAU * probe_hz / TEST_SR;
    let (c1, s1) = ((-w).cos(), (-w).sin());
    let (c2, s2) = ((-2.0 * w).cos(), (-2.0 * w).sin());
    let num_re = b0 + b1 * c1 + b2 * c2;
    let num_im = b1 * s1 + b2 * s2;
    let den_re = a0 + a1 * c1 + a2 * c2;
    let den_im = a1 * s1 + a2 * s2;
    let magnitude =
        ((num_re * num_re + num_im * num_im) / (den_re * den_re + den_im * den_im)).sqrt();
    20.0 * magnitude.log10()
}

#[test]
fn every_bands_magnitude_response_matches_the_analytic_target_within_a_tenth_of_a_db() {
    // Low shelf: 40-500 Hz, +-15 dB.
    for corner in [40.0f64, 100.0, 250.0, 500.0] {
        for gain_db in [-15.0f64, -6.0, 6.0, 15.0] {
            let mut stage = eq_stage(ChannelConfig::Mono);
            stage.apply(change(EQ_IDS.low_shelf_freq_hz, corner as f32));
            stage.apply(change(EQ_IDS.low_shelf_gain_db, gain_db as f32));
            for probe in [20.0, corner, 2.0 * corner, 4.0 * corner, 12_000.0] {
                let expected = analytic_magnitude_db(
                    FilterKind::LowShelf,
                    corner,
                    SHELF_Q_UNUSED,
                    gain_db,
                    probe,
                );
                let measured = measure_magnitude_db(&mut stage, probe);
                assert!(
                    (measured - expected).abs() < ANALYTIC_TOLERANCE_DB,
                    "low shelf {corner} Hz {gain_db} dB at {probe} Hz: measured \
                     {measured:.4} dB, analytic {expected:.4} dB"
                );
            }
        }
    }

    // Mid bell: 200 Hz-5 kHz, +-15 dB, Q 0.2-5.0.
    for corner in [200.0f64, 1_000.0, 5_000.0] {
        for gain_db in [-15.0f64, 15.0] {
            for q in [0.2f64, 0.707, 5.0] {
                let mut stage = eq_stage(ChannelConfig::Mono);
                stage.apply(change(EQ_IDS.mid_freq_hz, corner as f32));
                stage.apply(change(EQ_IDS.mid_gain_db, gain_db as f32));
                stage.apply(change(EQ_IDS.mid_q, q as f32));
                for probe in [100.0, corner / 2.0, corner, 2.0 * corner, 15_000.0] {
                    let expected =
                        analytic_magnitude_db(FilterKind::Peaking, corner, q, gain_db, probe);
                    let measured = measure_magnitude_db(&mut stage, probe);
                    assert!(
                        (measured - expected).abs() < ANALYTIC_TOLERANCE_DB,
                        "mid bell {corner} Hz {gain_db} dB Q {q} at {probe} Hz: measured \
                         {measured:.4} dB, analytic {expected:.4} dB"
                    );
                }
            }
        }
    }

    // High shelf: 1-12 kHz, +-15 dB.
    for corner in [1_000.0f64, 3_000.0, 12_000.0] {
        for gain_db in [-15.0f64, 15.0] {
            let mut stage = eq_stage(ChannelConfig::Mono);
            stage.apply(change(EQ_IDS.high_shelf_freq_hz, corner as f32));
            stage.apply(change(EQ_IDS.high_shelf_gain_db, gain_db as f32));
            for probe in [100.0, corner / 2.0, corner, (2.0 * corner).min(20_000.0)] {
                let expected = analytic_magnitude_db(
                    FilterKind::HighShelf,
                    corner,
                    SHELF_Q_UNUSED,
                    gain_db,
                    probe,
                );
                let measured = measure_magnitude_db(&mut stage, probe);
                assert!(
                    (measured - expected).abs() < ANALYTIC_TOLERANCE_DB,
                    "high shelf {corner} Hz {gain_db} dB at {probe} Hz: measured \
                     {measured:.4} dB, analytic {expected:.4} dB"
                );
            }
        }
    }

    // The two filters that can be switched off.
    for corner in [20.0f64, 80.0, 500.0] {
        let mut stage = eq_stage(ChannelConfig::Mono);
        stage.apply(change(EQ_IDS.high_pass_enabled, 1.0));
        stage.apply(change(EQ_IDS.high_pass_freq_hz, corner as f32));
        for probe in [corner / 2.0, corner, 2.0 * corner, 4.0 * corner] {
            let expected = analytic_magnitude_db(
                FilterKind::HighPass,
                corner,
                HIGH_PASS_LOW_PASS_Q,
                0.0,
                probe,
            );
            let measured = measure_magnitude_db(&mut stage, probe);
            assert!(
                (measured - expected).abs() < ANALYTIC_TOLERANCE_DB,
                "high-pass {corner} Hz at {probe} Hz: measured {measured:.4} dB, analytic \
                 {expected:.4} dB"
            );
        }
    }
    for corner in [1_000.0f64, 8_000.0, 20_000.0] {
        let mut stage = eq_stage(ChannelConfig::Mono);
        stage.apply(change(EQ_IDS.low_pass_enabled, 1.0));
        stage.apply(change(EQ_IDS.low_pass_freq_hz, corner as f32));
        for probe in [corner / 4.0, corner / 2.0, corner, (2.0 * corner).min(20_000.0)] {
            let expected = analytic_magnitude_db(
                FilterKind::LowPass,
                corner,
                HIGH_PASS_LOW_PASS_Q,
                0.0,
                probe,
            );
            let measured = measure_magnitude_db(&mut stage, probe);
            assert!(
                (measured - expected).abs() < ANALYTIC_TOLERANCE_DB,
                "low-pass {corner} Hz at {probe} Hz: measured {measured:.4} dB, analytic \
                 {expected:.4} dB"
            );
        }
    }
}

#[test]
fn each_band_hits_its_textbook_value_at_its_own_corner() {
    // A bell reaches its whole gain at centre.
    for (corner, gain_db) in [(200.0f64, 15.0f64), (1_000.0, -9.0), (5_000.0, 6.0)] {
        let mut stage = eq_stage(ChannelConfig::Mono);
        stage.apply(change(EQ_IDS.mid_freq_hz, corner as f32));
        stage.apply(change(EQ_IDS.mid_gain_db, gain_db as f32));
        let measured = measure_magnitude_db(&mut stage, corner);
        assert!(
            (measured - gain_db).abs() < ANALYTIC_TOLERANCE_DB,
            "bell at {corner} Hz should reach its full {gain_db} dB at centre, measured \
             {measured:.4} dB"
        );
    }

    // A shelf reaches half its gain in dB at its corner.
    for (id, corner, gain_db) in [
        (EQ_IDS.low_shelf_freq_hz, 40.0f64, 15.0f64),
        (EQ_IDS.low_shelf_freq_hz, 500.0, -15.0),
        (EQ_IDS.high_shelf_freq_hz, 1_000.0, -15.0),
        (EQ_IDS.high_shelf_freq_hz, 12_000.0, 15.0),
    ] {
        let gain_id = if id == EQ_IDS.low_shelf_freq_hz {
            EQ_IDS.low_shelf_gain_db
        } else {
            EQ_IDS.high_shelf_gain_db
        };
        let mut stage = eq_stage(ChannelConfig::Mono);
        stage.apply(change(id, corner as f32));
        stage.apply(change(gain_id, gain_db as f32));
        let measured = measure_magnitude_db(&mut stage, corner);
        assert!(
            (measured - gain_db / 2.0).abs() < ANALYTIC_TOLERANCE_DB,
            "shelf at {corner} Hz with {gain_db} dB should be at half that at its corner, \
             measured {measured:.4} dB"
        );
    }

    // Butterworth alignment: -3.0103 dB at the corner.
    const MINUS_THREE_DB: f64 = -3.010_299_956_639_812;
    for (enable_id, freq_id, corner) in [
        (EQ_IDS.high_pass_enabled, EQ_IDS.high_pass_freq_hz, 20.0f64),
        (EQ_IDS.high_pass_enabled, EQ_IDS.high_pass_freq_hz, 500.0),
        (EQ_IDS.low_pass_enabled, EQ_IDS.low_pass_freq_hz, 1_000.0),
        (EQ_IDS.low_pass_enabled, EQ_IDS.low_pass_freq_hz, 20_000.0),
    ] {
        let mut stage = eq_stage(ChannelConfig::Mono);
        stage.apply(change(enable_id, 1.0));
        stage.apply(change(freq_id, corner as f32));
        let measured = measure_magnitude_db(&mut stage, corner);
        assert!(
            (measured - MINUS_THREE_DB).abs() < ANALYTIC_TOLERANCE_DB,
            "a Butterworth corner at {corner} Hz should be -3.01 dB, measured {measured:.4} dB"
        );
    }
}

#[test]
fn low_shelf_gain_reflected_at_dc_and_flat_at_nyquist() {
    let mut stage = eq_stage(ChannelConfig::Mono);
    stage.apply(change(EQ_IDS.low_shelf_gain_db, 9.0));
    let dc = 0.2f32;
    let dc_tail = last(&process_constant_in_chunks(&mut stage, 48_000, dc));
    let dc_db = linear_to_db(dc_tail / dc);
    assert!((dc_db - 9.0).abs() < 0.3, "dc_db={dc_db}, expected ~9.0");
    let (nyq_out, nyq_in) = process_alternating_tail(&mut stage, 4_800, dc);
    let nyq_db = linear_to_db((nyq_out / nyq_in).abs());
    assert!(nyq_db.abs() < 0.3, "nyquist_db={nyq_db}, expected ~0");
}

#[test]
fn high_shelf_gain_reflected_at_nyquist_and_flat_at_dc() {
    let mut stage = eq_stage(ChannelConfig::Mono);
    stage.apply(change(EQ_IDS.high_shelf_gain_db, -12.0));
    let dc = 0.2f32;
    let dc_tail = last(&process_constant_in_chunks(&mut stage, 48_000, dc));
    let dc_db = linear_to_db(dc_tail / dc);
    assert!(dc_db.abs() < 0.3, "dc_db={dc_db}, expected ~0");
    let (nyq_out, nyq_in) = process_alternating_tail(&mut stage, 4_800, dc);
    let nyq_db = linear_to_db((nyq_out / nyq_in).abs());
    assert!((nyq_db - (-12.0)).abs() < 0.3, "nyquist_db={nyq_db}, expected ~-12.0");
}

#[test]
fn mid_peaking_is_flat_at_dc_and_nyquist() {
    let mut stage = eq_stage(ChannelConfig::Mono);
    stage.apply(change(EQ_IDS.mid_gain_db, 10.0));
    let dc = 0.2f32;
    let dc_tail = last(&process_constant_in_chunks(&mut stage, 48_000, dc));
    let dc_db = linear_to_db(dc_tail / dc);
    assert!(dc_db.abs() < 0.3, "dc_db={dc_db}, expected ~0");
    let (nyq_out, nyq_in) = process_alternating_tail(&mut stage, 4_800, dc);
    let nyq_db = linear_to_db((nyq_out / nyq_in).abs());
    assert!(nyq_db.abs() < 0.3, "nyquist_db={nyq_db}, expected ~0");
}

#[test]
fn high_pass_enabled_blocks_dc_and_passes_near_nyquist() {
    let mut stage = eq_stage(ChannelConfig::Mono);
    stage.apply(change(EQ_IDS.high_pass_enabled, 1.0));
    let dc = 0.2f32;
    let dc_tail = last(&process_constant_in_chunks(&mut stage, 48_000, dc));
    assert!(
        (dc_tail / dc).abs() < 1e-2,
        "expected DC heavily attenuated once enabled, got ratio {}",
        dc_tail / dc
    );
    let (nyq_out, nyq_in) = process_alternating_tail(&mut stage, 4_800, dc);
    let nyq_db = linear_to_db((nyq_out / nyq_in).abs());
    assert!(nyq_db.abs() < 0.3, "nyquist_db={nyq_db}, expected ~0 (passed)");
}

#[test]
fn low_pass_enabled_passes_dc_and_blocks_near_nyquist() {
    let mut stage = eq_stage(ChannelConfig::Mono);
    stage.apply(change(EQ_IDS.low_pass_enabled, 1.0));
    let dc = 0.2f32;
    let dc_tail = last(&process_constant_in_chunks(&mut stage, 48_000, dc));
    let dc_db = linear_to_db(dc_tail / dc);
    assert!(dc_db.abs() < 0.3, "dc_db={dc_db}, expected ~0 (passed)");
    let (nyq_out, nyq_in) = process_alternating_tail(&mut stage, 4_800, dc);
    assert!(
        (nyq_out / nyq_in).abs() < 1e-2,
        "expected Nyquist heavily attenuated once enabled, got ratio {}",
        nyq_out / nyq_in
    );
}

#[test]
fn disabled_bands_default_to_identity_passthrough() {
    let mut stage = eq_stage(ChannelConfig::Mono);
    let dc = 0.3f32;
    let tail = last(&process_constant_in_chunks(&mut stage, 4_800, dc));
    assert!(
        (tail - dc).abs() < 1e-3,
        "expected near-unity passthrough at defaults, got {tail} vs {dc}"
    );
}

#[test]
fn channels_are_filtered_independently_no_state_leak() {
    let mut stage = eq_stage(ChannelConfig::Stereo);
    // A resonant mid boost so an impulse leaves a measurable ringing tail.
    stage.apply(change(EQ_IDS.mid_gain_db, 12.0));
    stage.apply(change(EQ_IDS.mid_q, 5.0));

    let mut left_rang = false;
    for block in 0..20 {
        let mut left = [0.0f32; 64];
        if block == 0 {
            left[0] = 1.0; // impulse on channel 0 only, once.
        }
        let mut io = block_of(&[&left, &[0.0f32; 64]]);
        stage.process(&mut io);
        if heard(&io, 0).iter().any(|x| x.abs() > 1e-6) {
            left_rang = true;
        }
        for x in heard(&io, 1) {
            assert!(
                x.abs() < 1e-6,
                "channel 1 (silent input) leaked nonzero output from channel 0's state: {x}"
            );
        }
    }
    assert!(left_rang, "expected channel 0's impulse to produce a nonzero filtered response");
}

#[test]
fn one_channel_of_the_equaliser_sounds_the_same_whatever_the_other_holds() {
    let right = sine(1_280, 330.0, SR, 0.3);
    let outputs: Vec<Vec<f32>> = [0.0f32, 0.9]
        .iter()
        .map(|&amplitude| {
            let mut stage = eq_stage(ChannelConfig::Stereo);
            stage.apply(change(EQ_IDS.mid_gain_db, 12.0));
            let left = sine(1_280, 1_000.0, SR, amplitude);
            let [_, heard_right] = play_stereo_in_chunks(&mut stage, &left, &right);
            heard_right
        })
        .collect();
    assert_eq!(outputs[0], outputs[1]);
}

#[test]
fn filters_and_the_noise_gate_do_not_hear_how_a_stream_is_divided() {
    let input = chirp(4_000, 80.0, 4_000.0, SR, 0.3);
    let mut filtered: Option<Vec<f32>> = None;
    let mut gated: Option<Vec<f32>> = None;
    for block in [64usize, 13, 1] {
        let mut stage = eq_stage(ChannelConfig::Mono);
        stage.apply(change(EQ_IDS.low_shelf_gain_db, 9.0));
        stage.apply(change(EQ_IDS.mid_gain_db, -6.0));
        let out = play_in_blocks(&mut stage, &input, block);
        assert_ne!(out, input);
        match &filtered {
            None => filtered = Some(out),
            Some(first) => assert_eq!(&out, first, "equaliser in blocks of {block}"),
        }
        let out = play_in_blocks(&mut gate_stage(ChannelConfig::Mono), &input, block);
        match &gated {
            None => gated = Some(out),
            Some(first) => assert_eq!(&out, first, "noise gate in blocks of {block}"),
        }
    }
}

#[test]
fn both_channels_of_the_equaliser_are_told() {
    let mut stage = eq_stage(ChannelConfig::Stereo);
    stage.apply(change(EQ_IDS.low_shelf_gain_db, 6.0));
    let steady = vec![0.1f32; 24_000];
    let [left, right] = play_stereo_in_chunks(&mut stage, &steady, &steady);
    assert!((last(&left) - 0.1 * db_to_linear(6.0)).abs() < 1e-3, "{}", last(&left));
    assert_eq!(left, right);
}

#[test]
fn enabled_toggle_mid_signal_has_no_large_single_sample_jump() {
    let mut stage = eq_stage(ChannelConfig::Mono);
    // A large low-shelf boost so a toggle actually changes the DC gain substantially.
    stage.apply(change(EQ_IDS.low_shelf_gain_db, 15.0));
    stage.apply(change(EQ_IDS.enabled, 0.0));
    let value = 0.3f32;
    let settled_disabled = last(&process_constant_in_chunks(&mut stage, 48_000, value));
    stage.apply(change(EQ_IDS.enabled, 1.0));
    let out = process_constant_in_chunks(&mut stage, 4_800, value);

    let instant_jump = value * (db_to_linear(15.0) - 1.0);
    let mut prev = settled_disabled;
    let mut max_delta = 0.0f32;
    for &x in &out {
        max_delta = max_delta.max((x - prev).abs());
        prev = x;
    }
    assert!(
        max_delta < instant_jump.abs() * 0.5,
        "max_delta={max_delta} not clearly smaller than an instant full jump of {instant_jump}"
    );
    assert!(max_delta > 0.0, "toggle produced no change at all");
}

/// The window a change is measured over: 40 ms.
const TRANSITION_SAMPLES: usize = 1_920;
/// A 20 ms ramp, in samples.
const IDEAL_RAMP_SAMPLES: f64 = 0.020 * TEST_SR;
/// The block before which a change is made.
const TOGGLE_BLOCK: usize = 300;

/// A steady tone through a stage that is set up by `settings`, with one more change made
/// partway.
fn run_click_probe(
    settings: &[(ParamId, f32)],
    probe_hz: f64,
    toggle: Option<(ParamId, f32)>,
) -> Vec<f32> {
    let mut stage = eq_stage(ChannelConfig::Mono);
    for (id, value) in settings {
        stage.apply(change(*id, *value));
    }
    let mut out = Vec::new();
    for (block, chunk) in probe_tone(48_000, probe_hz).chunks(64).enumerate() {
        if let (TOGGLE_BLOCK, Some((id, value))) = (block, toggle) {
            stage.apply(change(id, value));
        }
        out.extend(play_in_chunks(&mut stage, chunk));
    }
    out
}

/// One parameter of the equaliser, moved from one value to another under a tone.
struct ClickProbe {
    what: &'static str,
    probe_hz: f64,
    settings: Vec<(ParamId, f32)>,
    id: ParamId,
    from: f32,
    to: f32,
    /// How many times the slew of a 20 ms ramp the change may reach.
    allowed_ratio: f32,
}

fn click_probes() -> Vec<ClickProbe> {
    vec![
        ClickProbe {
            what: "eq.enabled",
            probe_hz: 100.0,
            settings: vec![(EQ_IDS.low_shelf_gain_db, 12.0)],
            id: EQ_IDS.enabled,
            from: 1.0,
            to: 0.0,
            allowed_ratio: 20.0,
        },
        ClickProbe {
            what: "eq.low_shelf_freq_hz",
            probe_hz: 200.0,
            settings: vec![(EQ_IDS.low_shelf_gain_db, 12.0)],
            id: EQ_IDS.low_shelf_freq_hz,
            from: 40.0,
            to: 500.0,
            allowed_ratio: 1.3,
        },
        ClickProbe {
            what: "eq.low_shelf_gain_db",
            probe_hz: 100.0,
            settings: vec![],
            id: EQ_IDS.low_shelf_gain_db,
            from: -15.0,
            to: 15.0,
            allowed_ratio: 1.2,
        },
        ClickProbe {
            what: "eq.mid_freq_hz",
            probe_hz: 1_000.0,
            settings: vec![(EQ_IDS.mid_gain_db, 15.0), (EQ_IDS.mid_q, 2.0)],
            id: EQ_IDS.mid_freq_hz,
            from: 200.0,
            to: 5_000.0,
            allowed_ratio: 4.5,
        },
        ClickProbe {
            what: "eq.mid_gain_db",
            probe_hz: 1_000.0,
            settings: vec![(EQ_IDS.mid_q, 2.0)],
            id: EQ_IDS.mid_gain_db,
            from: -15.0,
            to: 15.0,
            allowed_ratio: 1.2,
        },
        ClickProbe {
            what: "eq.mid_q",
            probe_hz: 1_200.0,
            settings: vec![(EQ_IDS.mid_gain_db, 15.0)],
            id: EQ_IDS.mid_q,
            from: 0.2,
            to: 5.0,
            allowed_ratio: 1.8,
        },
        ClickProbe {
            what: "eq.high_shelf_freq_hz",
            probe_hz: 3_000.0,
            settings: vec![(EQ_IDS.high_shelf_gain_db, 12.0)],
            id: EQ_IDS.high_shelf_freq_hz,
            from: 1_000.0,
            to: 12_000.0,
            allowed_ratio: 2.1,
        },
        ClickProbe {
            what: "eq.high_shelf_gain_db",
            probe_hz: 6_000.0,
            settings: vec![],
            id: EQ_IDS.high_shelf_gain_db,
            from: -15.0,
            to: 15.0,
            allowed_ratio: 1.2,
        },
        ClickProbe {
            what: "eq.high_pass_enabled",
            probe_hz: 60.0,
            settings: vec![(EQ_IDS.high_pass_freq_hz, 200.0)],
            id: EQ_IDS.high_pass_enabled,
            from: 0.0,
            to: 1.0,
            allowed_ratio: 1.6,
        },
        ClickProbe {
            what: "eq.high_pass_freq_hz",
            probe_hz: 100.0,
            settings: vec![(EQ_IDS.high_pass_enabled, 1.0)],
            id: EQ_IDS.high_pass_freq_hz,
            from: 20.0,
            to: 500.0,
            allowed_ratio: 2.2,
        },
        ClickProbe {
            what: "eq.low_pass_enabled",
            probe_hz: 4_000.0,
            settings: vec![(EQ_IDS.low_pass_freq_hz, 2_000.0)],
            id: EQ_IDS.low_pass_enabled,
            from: 0.0,
            to: 1.0,
            allowed_ratio: 1.5,
        },
        ClickProbe {
            what: "eq.low_pass_freq_hz",
            probe_hz: 4_000.0,
            settings: vec![(EQ_IDS.low_pass_enabled, 1.0)],
            id: EQ_IDS.low_pass_freq_hz,
            from: 1_000.0,
            to: 20_000.0,
            allowed_ratio: 3.0,
        },
    ]
}

#[test]
fn changing_any_eq_parameter_is_click_free() {
    let rows = click_probes();
    assert_eq!(rows.len(), 12, "the equaliser has twelve parameters; span them all");
    for row in &rows {
        let mut before_settings = row.settings.clone();
        before_settings.push((row.id, row.from));
        let mut after_settings = row.settings.clone();
        after_settings.push((row.id, row.to));

        let before = run_click_probe(&before_settings, row.probe_hz, None);
        let after = run_click_probe(&after_settings, row.probe_hz, None);
        let toggled = run_click_probe(&before_settings, row.probe_hz, Some((row.id, row.to)));

        let toggle_at = TOGGLE_BLOCK * 64;
        let deviation: Vec<f32> =
            toggled.iter().zip(before.iter()).map(|(t, b)| t - b).collect();
        assert!(
            deviation[..toggle_at].iter().all(|&d| d == 0.0),
            "{}: the output moved before the parameter was changed",
            row.what
        );

        let range = max_abs_difference(&before[toggle_at..], &after[toggle_at..]);
        assert!(
            range > 0.05 * PROBE_AMPLITUDE,
            "{}: changing it moves the output by only {range}, so this row proves nothing",
            row.what
        );

        let settled = max_abs_first_difference(&deviation[deviation.len() - 12_000..]);
        let transition =
            max_abs_first_difference(&deviation[toggle_at..toggle_at + TRANSITION_SAMPLES]);
        let bound = settled + range / IDEAL_RAMP_SAMPLES as f32;
        assert!(
            transition <= bound * row.allowed_ratio,
            "{}: changing it stepped the output by {transition} per sample, {:.2}x the bound of \
             {bound} -- this row is allowed {:.2}x",
            row.what,
            transition / bound,
            row.allowed_ratio,
        );
        assert!(
            row.allowed_ratio < 1.25 || transition * 2.0 > bound * row.allowed_ratio,
            "{}: measures {transition}, less than half its {:.2}x allowance",
            row.what,
            row.allowed_ratio,
        );
    }
}

#[test]
fn every_band_is_targeted_by_its_own_settings() {
    let mut stage = eq_stage(ChannelConfig::Mono);
    let mut settings = eq_defaults();
    assert_eq!(stage.band_target(BAND_HIGH_PASS), FilterTarget::Identity);
    assert_eq!(stage.band_target(BAND_LOW_PASS), FilterTarget::Identity);
    for (id, value, band) in [
        (EQ_IDS.low_shelf_freq_hz, 100.0, BAND_LOW_SHELF),
        (EQ_IDS.low_shelf_gain_db, 1.0, BAND_LOW_SHELF),
        (EQ_IDS.mid_freq_hz, 700.0, BAND_MID),
        (EQ_IDS.mid_gain_db, 2.0, BAND_MID),
        (EQ_IDS.mid_q, 3.0, BAND_MID),
        (EQ_IDS.high_shelf_freq_hz, 5_000.0, BAND_HIGH_SHELF),
        (EQ_IDS.high_shelf_gain_db, 4.0, BAND_HIGH_SHELF),
        (EQ_IDS.high_pass_enabled, 1.0, BAND_HIGH_PASS),
        (EQ_IDS.high_pass_freq_hz, 60.0, BAND_HIGH_PASS),
        (EQ_IDS.low_pass_enabled, 1.0, BAND_LOW_PASS),
        (EQ_IDS.low_pass_freq_hz, 9_000.0, BAND_LOW_PASS),
    ] {
        assert_eq!(settings.apply(&EQ_IDS, change(id, value)), Retarget::Band(band), "{id:?}");
        stage.apply(change(id, value));
        assert_eq!(stage.settings, settings);
    }
    let design = |kind: FilterKind, freq: f32, q: FilterQ, gain: f32| FilterTarget::Design {
        kind,
        freq_hz: s(freq),
        q,
        gain_db: s(gain),
    };
    assert_eq!(
        stage.band_target(BAND_HIGH_PASS),
        design(FilterKind::HighPass, 60.0, FilterQ::Butterworth, 0.0)
    );
    assert_eq!(
        stage.band_target(BAND_LOW_SHELF),
        design(FilterKind::LowShelf, 100.0, FilterQ::UnitSlope, 1.0)
    );
    assert_eq!(
        stage.band_target(BAND_MID),
        design(FilterKind::Peaking, 700.0, FilterQ::Given(s(3.0)), 2.0)
    );
    assert_eq!(
        stage.band_target(BAND_HIGH_SHELF),
        design(FilterKind::HighShelf, 5_000.0, FilterQ::UnitSlope, 4.0)
    );
    assert_eq!(
        stage.band_target(BAND_LOW_PASS),
        design(FilterKind::LowPass, 9_000.0, FilterQ::Butterworth, 0.0)
    );
    assert_eq!(settings.apply(&EQ_IDS, change(ParamId(7), 1.0)), Retarget::Nothing);
    assert_eq!(settings.apply(&EQ_IDS, change(EQ_IDS.enabled, 0.0)), Retarget::All);
    stage.apply(change(EQ_IDS.enabled, 0.0));
    for band in 0..BAND_COUNT {
        assert_eq!(stage.band_target(band), FilterTarget::Identity);
    }
}

type Log = Arc<Mutex<Vec<(u32, u32)>>>;

/// Passes everything on, and keeps a list of what it is told.
struct Recorder {
    log: Log,
}

impl Processor for Recorder {
    fn process(&mut self, _channels: &mut [Vec<f32>]) {}
    fn reset(&mut self) {
        self.log.lock().unwrap().push((0, 0));
    }
    fn apply(&mut self, id: ParamId, value: f32) {
        self.log.lock().unwrap().push((id.0, value.to_bits()));
    }
}

fn recorder() -> (BoxedStage, Log) {
    let log: Log = Arc::new(Mutex::new(Vec::new()));
    (boxed(Recorder { log: Arc::clone(&log) }), log)
}

fn taken(log: &Log) -> Vec<(u32, u32)> {
    std::mem::take(&mut *log.lock().unwrap())
}

/// What a filter is told that is to have no effect.
fn no_effect(ramp: u32) -> Vec<(u32, u32)> {
    vec![(1_601, ramp), (1_607, 0)]
}

/// What a filter is told that is to become a shape.
fn shape(ramp: u32, kind: u32, freq: f32, gain: f32, rule: u32, q: f32) -> Vec<(u32, u32)> {
    vec![
        (1_601, ramp),
        (1_602, kind),
        (1_603, freq.to_bits()),
        (1_604, gain.to_bits()),
        (1_605, rule),
        (1_606, q.to_bits()),
        (1_607, 1.0f32.to_bits()),
    ]
}

#[test]
fn a_filter_is_told_its_target_in_order() {
    let (mut filter, log) = recorder();
    brief(&mut filter, &FILTER_PORT, FilterTarget::Identity, 48);
    assert_eq!(taken(&log), no_effect(48));
    let target = |kind: FilterKind, q: FilterQ| FilterTarget::Design {
        kind,
        freq_hz: s(440.0),
        q,
        gain_db: s(-3.0),
    };
    for (kind, number) in [
        (FilterKind::HighPass, 0),
        (FilterKind::LowShelf, 1),
        (FilterKind::Peaking, 2),
        (FilterKind::HighShelf, 3),
        (FilterKind::LowPass, 4),
    ] {
        brief(&mut filter, &FILTER_PORT, target(kind, FilterQ::Butterworth), 0);
        assert_eq!(taken(&log), shape(0, number, 440.0, -3.0, 0, 0.0));
        brief(&mut filter, &FILTER_PORT, target(kind, FilterQ::UnitSlope), u32::MAX);
        assert_eq!(taken(&log), shape(u32::MAX, number, 440.0, -3.0, 1, 0.0));
        brief(&mut filter, &FILTER_PORT, target(kind, FilterQ::Given(s(2.5))), 7);
        assert_eq!(taken(&log), shape(7, number, 440.0, -3.0, 2, 2.5));
    }
}

#[test]
fn a_filter_understands_what_it_is_told() {
    let (mut filter, log) = recorder();
    let mut orders = FilterOrders::new();
    for (target, ramp_samples) in [
        (FilterTarget::Identity, 3),
        (
            FilterTarget::Design {
                kind: FilterKind::Peaking,
                freq_hz: s(700.0),
                q: FilterQ::Given(s(1.5)),
                gain_db: s(6.0),
            },
            123_456_789,
        ),
        (
            FilterTarget::Design {
                kind: FilterKind::LowShelf,
                freq_hz: s(90.0),
                q: FilterQ::UnitSlope,
                gain_db: s(-1.0),
            },
            64,
        ),
        (
            FilterTarget::Design {
                kind: FilterKind::LowPass,
                freq_hz: s(9_000.0),
                q: FilterQ::Butterworth,
                gain_db: s(0.0),
            },
            u32::MAX,
        ),
        (FilterTarget::Identity, 0),
    ] {
        brief(&mut filter, &FILTER_PORT, target, ramp_samples);
        let told = taken(&log);
        for (heard, (id, bits)) in told.iter().enumerate() {
            let change = ParamChange { id: ParamId(*id), value: Sample::from_bits(*bits) };
            let to = orders.hear(&FILTER_PORT, change);
            if heard + 1 == told.len() {
                assert_eq!(to, Some(FilterMove { target, ramp_samples }));
            } else {
                assert_eq!(to, None);
            }
        }
    }
    let before = orders;
    assert_eq!(orders.hear(&FILTER_PORT, change(ParamId(7), 1.0)), None);
    assert_eq!(orders, before);
}

#[test]
fn the_noise_gate_tells_its_detector_everything_at_first_and_changes_from_then_on() {
    let (detector, log) = recorder();
    let ctx = ctx();
    let mut prep = gate_prep(&ctx);
    prep.detector = detector;
    let mut stage = prep.prepare(&ctx).unwrap();
    assert_eq!(
        taken(&log),
        vec![
            (GATE_IDS.threshold_db.0, (-70.0f32).to_bits()),
            (GATE_IDS.attack_ms.0, 1.0f32.to_bits()),
            (GATE_IDS.hold_ms.0, 30.0f32.to_bits()),
            (GATE_IDS.release_ms.0, 50.0f32.to_bits()),
        ]
    );
    stage.apply(change(GATE_IDS.hold_ms, 12.0));
    assert_eq!(taken(&log), vec![(GATE_IDS.hold_ms.0, 12.0f32.to_bits())]);
    assert_eq!(stage.params.hold_ms, s(12.0));
    stage.apply(change(GATE_IDS.enabled, 0.0));
    stage.apply(change(ParamId(7), 1.0));
    assert_eq!(taken(&log), vec![]);
    stage.reset();
    assert_eq!(taken(&log), vec![(0, 0)]);
}

#[test]
fn filters_take_one_block_to_a_new_target() {
    assert_eq!(one_block_of_samples(64), 64);
    assert_eq!(one_block_of_samples(usize::MAX), u32::MAX);
}

#[test]
fn the_equaliser_jumps_at_first_and_moves_from_then_on() {
    let (high_pass, high_pass_log) = recorder();
    let (mid, mid_log) = recorder();
    let ctx = ctx();
    let mut prep = eq_prep(&ctx);
    prep.first.high_pass = high_pass;
    prep.second.mid = mid;
    let mut stage = prep.prepare(&ctx).unwrap();
    assert_eq!(taken(&high_pass_log), no_effect(0));
    assert_eq!(taken(&mid_log), shape(0, 2, 1_000.0, 0.0, 2, 0.707));

    stage.apply(change(EQ_IDS.mid_gain_db, 4.0));
    assert_eq!(taken(&mid_log), shape(64, 2, 1_000.0, 4.0, 2, 0.707));
    assert_eq!(taken(&high_pass_log), vec![]);

    // Off and on again: every band is told, and comes back as it was.
    stage.apply(change(EQ_IDS.enabled, 0.0));
    assert_eq!(taken(&mid_log), no_effect(64));
    assert_eq!(taken(&high_pass_log), no_effect(64));
    stage.apply(change(EQ_IDS.enabled, 1.0));
    assert_eq!(taken(&mid_log), shape(64, 2, 1_000.0, 4.0, 2, 0.707));
    assert_eq!(taken(&high_pass_log), no_effect(64));

    stage.apply(change(ParamId(7), 1.0));
    assert_eq!(taken(&mid_log), vec![]);
    stage.reset();
    assert_eq!(taken(&mid_log), vec![(0, 0)]);
    assert_eq!(taken(&high_pass_log), vec![(0, 0)]);
}

#[test]
fn the_cabinet_stage_tells_its_filters_and_its_level() {
    let (low_cut, low_cut_log) = recorder();
    let (high_cut, high_cut_log) = recorder();
    let (level, level_log) = recorder();
    let ctx = ctx();
    let mut prep = ir_prep(&ctx);
    prep.filters.low_cut_enabled = true;
    prep.shaping.first = IrChannel { low_cut, high_cut, level };
    let mut stage = prep.prepare(&ctx).unwrap();
    assert_eq!(taken(&low_cut_log), shape(0, 0, 80.0, 0.0, 0, 0.0));
    assert_eq!(taken(&high_cut_log), no_effect(0));
    assert_eq!(taken(&level_log), vec![(LEVEL_TARGET_ID.0, 0)]);

    stage.apply(change(IR_IDS.low_cut_freq_hz, 120.0));
    assert_eq!(taken(&low_cut_log), shape(64, 0, 120.0, 0.0, 0, 0.0));
    stage.apply(change(IR_IDS.low_cut_enabled, 0.0));
    assert_eq!(taken(&low_cut_log), no_effect(64));
    stage.apply(change(IR_IDS.high_cut_enabled, 1.0));
    assert_eq!(taken(&high_cut_log), shape(64, 4, 8_000.0, 0.0, 0, 0.0));
    stage.apply(change(IR_IDS.level_db, -9.0));
    assert_eq!(taken(&level_log), vec![(LEVEL_TARGET_ID.0, (-9.0f32).to_bits())]);
    stage.apply(change(IR_IDS.enabled, 0.0));
    stage.apply(change(ParamId(7), 1.0));
    assert_eq!(taken(&low_cut_log), vec![]);

    // A reset clears the filters and leaves the level where it is.
    stage.reset();
    assert_eq!(taken(&low_cut_log), vec![(0, 0)]);
    assert_eq!(taken(&high_cut_log), vec![(0, 0)]);
    assert_eq!(taken(&level_log), vec![]);
}

// The output stage.

/// The time constant of the output gain's ramp.
const GAIN_RAMP_TIME_CONSTANT_MS: f32 = 25.0;

fn out_stage(config: ChannelConfig) -> OutStage {
    let ctx = ctx_for(config);
    out_prep(&ctx).prepare(&ctx).unwrap()
}

/// Drives every channel's ramp to convergence.
fn settle(stage: &mut OutStage, channel_count: usize, value: f32) {
    for _ in 0..200 {
        let block = [value; 64];
        let channels: Vec<&[f32]> = (0..channel_count).map(|_| &block[..]).collect();
        let mut io = block_of(&channels);
        stage.process(&mut io);
    }
}

/// One block of a constant through a mono stage.
fn one_block(stage: &mut OutStage, value: f32) -> Vec<f32> {
    let mut io = block_of(&[&[value; 64]]);
    stage.process(&mut io);
    heard(&io, 0)
}

fn telemetry_value(stage: &OutStage, id: u32) -> f32 {
    let mut storage = [TelemetryEntry { id: 0, value: s(0.0) }; 16];
    let mut sink = TelemetrySink::new(&mut storage);
    stage.telemetry(&mut sink);
    let entries = sink.entries();
    f(entries.iter().find(|e| e.id == id).expect("telemetry entry present").value)
}

/// Runs a sine through a mono stage in 64-sample blocks.
fn drive_sine(stage: &mut OutStage, frames: usize, freq_hz: f64, amplitude: f32) {
    let input: Vec<f32> = (0..frames)
        .map(|i| {
            (f64::from(amplitude) * (std::f64::consts::TAU * freq_hz * i as f64 / 48_000.0).sin())
                as f32
        })
        .collect();
    play_in_chunks(stage, &input);
}

#[test]
fn a_prepared_stage_starts_settled_at_the_gain_default() {
    let stage = out_stage(ChannelConfig::Stereo);
    let default_db = f(stage.gain_target_db);
    assert_eq!(default_db, 0.0);
    for (index, channel) in [&stage.first, &stage.second].into_iter().enumerate() {
        let current_db = f(read_level(&channel.gain).unwrap());
        assert!(
            (current_db - default_db).abs() < 1e-4,
            "channel {index}'s ramp sits at {current_db} dB, not its {default_db} dB default"
        );
    }
}

#[test]
fn a_stage_with_another_default_starts_there() {
    let ctx = ctx();
    let mut prep = out_prep(&ctx);
    prep.gain_default_db = s(-12.0);
    prep.first.gain = boxed(GainRamp::new(OUT_GAIN_TARGET_ID, SR, -12.0));
    let mut stage = prep.prepare(&ctx).unwrap();
    let expected = db_to_linear(-12.0);
    for x in one_block(&mut stage, 1.0) {
        assert!((x - expected).abs() < 1e-6, "got {x}, not {expected}");
    }
}

#[test]
fn gain_is_applied_once_settled() {
    let mut stage = out_stage(ChannelConfig::Mono);
    stage.apply(change(OUT_GAIN_DB_ID, -6.0));
    settle(&mut stage, 1, 1.0);
    let expected = 0.5 * db_to_linear(-6.0);
    for x in one_block(&mut stage, 0.5) {
        assert!((x - expected).abs() < 1e-3, "got {x}, expected {expected}");
    }
}

#[test]
fn an_untouched_stage_is_unity_and_a_raised_one_applies_its_gain() {
    let mut at_default = out_stage(ChannelConfig::Mono);
    settle(&mut at_default, 1, 0.5);
    for x in one_block(&mut at_default, 0.5) {
        assert!((x - 0.5).abs() < 1e-6, "got {x} for an input of 0.5");
    }
    let mut at_max = out_stage(ChannelConfig::Mono);
    at_max.apply(change(OUT_GAIN_DB_ID, 12.0));
    settle(&mut at_max, 1, 0.1);
    let expected = 0.1 * db_to_linear(12.0);
    for x in one_block(&mut at_max, 0.1) {
        assert!((x - expected).abs() < 1e-4, "got {x}, expected {expected}");
    }
}

#[test]
fn silence_floor_is_exact_not_asymptotic() {
    let mut at_floor = out_stage(ChannelConfig::Mono);
    at_floor.apply(change(OUT_GAIN_DB_ID, SILENCE_FLOOR_DB));
    settle(&mut at_floor, 1, 1.0);
    for x in one_block(&mut at_floor, 1.0) {
        assert_eq!(x, 0.0, "expected literal zero at the settled silence floor");
    }

    let mut stage_below = out_stage(ChannelConfig::Mono);
    stage_below.apply(change(OUT_GAIN_DB_ID, SILENCE_FLOOR_DB - 20.0));
    settle(&mut stage_below, 1, 1.0);
    for x in one_block(&mut stage_below, 1.0) {
        assert_eq!(x, 0.0, "expected literal zero below the silence floor too");
    }
}

/// Passes everything on, and claims to stand at a level.
struct Claims {
    readings: Vec<f32>,
}

impl Processor for Claims {
    fn process(&mut self, _channels: &mut [Vec<f32>]) {}
    fn readings(&self) -> Vec<(u32, f32)> {
        self.readings.iter().map(|x| (0, *x)).collect()
    }
}

#[test]
fn a_channel_is_silenced_only_at_the_floor_and_once_its_gain_is_there() {
    let heard_at = |target_db: f32, readings: Vec<f32>| {
        let ctx = ctx();
        let mut prep = out_prep(&ctx);
        prep.gain_default_db = s(target_db);
        prep.first.gain = boxed(Claims { readings });
        one_block(&mut prep.prepare(&ctx).unwrap(), 0.5)
    };
    // The target is above the floor: never silenced.
    assert_eq!(heard_at(-59.5, vec![-59.5]), vec![0.5; 64]);
    assert_eq!(heard_at(-59.5, vec![-70.0]), vec![0.5; 64]);
    assert_eq!(heard_at(SILENCE_FLOOR_DB, vec![-58.9]), vec![0.5; 64]);
    assert_eq!(heard_at(SILENCE_FLOOR_DB, vec![-59.0]), vec![0.0; 64]);
    assert_eq!(heard_at(SILENCE_FLOOR_DB, vec![-70.0]), vec![0.0; 64]);
    // It is the last reading that counts, and there has to be one.
    assert_eq!(heard_at(SILENCE_FLOOR_DB, vec![-70.0, -20.0]), vec![0.5; 64]);
    assert_eq!(heard_at(SILENCE_FLOOR_DB, vec![-20.0, -70.0]), vec![0.0; 64]);
    assert_eq!(heard_at(SILENCE_FLOOR_DB, vec![]), vec![0.5; 64]);
}

#[test]
fn both_channels_come_to_silence_and_the_meters_see_it() {
    let mut stage = out_stage(ChannelConfig::Stereo);
    stage.apply(change(ParamId(3), SILENCE_FLOOR_DB));
    assert_eq!(f(stage.gain_target_db), 0.0);
    stage.apply(change(OUT_GAIN_DB_ID, SILENCE_FLOOR_DB));
    settle(&mut stage, 2, 1.0);
    stage.reset();
    let mut io = block_of(&[&[1.0f32; 64], &[-1.0f32; 64]]);
    stage.process(&mut io);
    assert_eq!(heard(&io, 0), vec![0.0; 64]);
    assert_eq!(heard(&io, 1), vec![0.0; 64]);
    for channel in 0..2 {
        assert_eq!(telemetry_value(&stage, out_channel_ids(channel).peak_db), linear_to_db(0.0));
        assert_eq!(telemetry_value(&stage, out_channel_ids(channel).clipped), 0.0);
    }
}

#[test]
fn transition_into_floor_is_click_free() {
    let sample_rate = 48_000u32;
    let mut stage = out_stage(ChannelConfig::Mono);
    settle(&mut stage, 1, 1.0);
    stage.apply(change(OUT_GAIN_DB_ID, SILENCE_FLOOR_DB));
    let out = process_constant_in_chunks(&mut stage, 48_000, 1.0);

    let range = 1.0 - db_to_linear(SILENCE_FLOOR_DB);
    let tau_seconds = GAIN_RAMP_TIME_CONSTANT_MS / 1000.0;
    let ideal_max_delta = range / (tau_seconds * sample_rate as f32);
    let bound = ideal_max_delta * 5.0;
    let mut prev = 1.0f32;
    let mut max_delta = 0.0f32;
    for &x in &out {
        max_delta = max_delta.max((x - prev).abs());
        prev = x;
    }
    assert!(max_delta <= bound, "max_delta={max_delta} exceeds the click-free bound {bound}");
    assert_eq!(
        out.last().copied(),
        Some(0.0),
        "expected the descent to reach exact silence"
    );
}

#[test]
fn peak_average_and_peak_hold_each_report_their_own_quantity() {
    let mut stage = out_stage(ChannelConfig::Mono);
    // 0.25 s at 0.8, then 1.5 s at 0.2.
    drive_sine(&mut stage, 12_000, 1_000.0, 0.8);
    drive_sine(&mut stage, 72_000, 1_000.0, 0.2);

    let ids = out_channel_ids(0);
    let peak = telemetry_value(&stage, ids.peak_db);
    let average = telemetry_value(&stage, ids.average_db);
    let peak_hold = telemetry_value(&stage, ids.peak_hold_db);
    let expected_hold = linear_to_db(0.8);
    let expected_peak = linear_to_db(0.2);
    let expected_average = linear_to_db(0.2 / std::f32::consts::SQRT_2);
    assert!(
        (peak_hold - expected_hold).abs() < 0.1,
        "peak-hold reads {peak_hold} dB, expected the 0.8 burst's {expected_hold} dB"
    );
    assert!(
        (peak - expected_peak).abs() < 0.3,
        "peak reads {peak} dB, expected the current 0.2 tone's {expected_peak} dB"
    );
    assert!(
        (average - expected_average).abs() < 0.3,
        "average reads {average} dB, expected the 0.2 tone's RMS {expected_average} dB"
    );
    assert!(
        peak_hold > peak + 3.0 && peak > average + 2.0,
        "the three readings are not well separated ({peak_hold} / {peak} / {average} dB)"
    );
}

#[test]
fn the_meter_reads_the_post_gain_signal() {
    let mut unity = out_stage(ChannelConfig::Mono);
    drive_sine(&mut unity, 48_000, 1_000.0, 0.5);

    let mut attenuated = out_stage(ChannelConfig::Mono);
    attenuated.apply(change(OUT_GAIN_DB_ID, -6.0));
    // Settle the ramp, then clear the meter so only the settled part is measured.
    drive_sine(&mut attenuated, 48_000, 1_000.0, 0.5);
    attenuated.reset();
    drive_sine(&mut attenuated, 48_000, 1_000.0, 0.5);

    let ids = out_channel_ids(0);
    for (what, id) in
        [("peak", ids.peak_db), ("average", ids.average_db), ("peak-hold", ids.peak_hold_db)]
    {
        let loud = telemetry_value(&unity, id);
        let quiet = telemetry_value(&attenuated, id);
        assert!(
            (loud - quiet - 6.0).abs() < 0.2,
            "{what} reads {loud} dB at unity and {quiet} dB at -6 dB: a difference of {}, not the \
             6 dB the gain applies",
            loud - quiet
        );
    }
}

#[test]
fn clip_latches_and_is_reported_via_telemetry() {
    let mut stage = out_stage(ChannelConfig::Mono);
    one_block(&mut stage, 1.5); // over full scale.
    assert_eq!(telemetry_value(&stage, out_channel_ids(0).clipped), 1.0);
    // Stays latched across a subsequent quiet block.
    one_block(&mut stage, 0.1);
    assert_eq!(
        telemetry_value(&stage, out_channel_ids(0).clipped),
        1.0,
        "clip indicator must stay latched"
    );
}

#[test]
fn multi_channel_metering_is_independent() {
    let mut stage = out_stage(ChannelConfig::Stereo);
    let mut io = block_of(&[&[1.5f32; 64], &[0.1f32; 64]]);
    stage.process(&mut io);
    let left_clipped = telemetry_value(&stage, out_channel_ids(0).clipped);
    let right_clipped = telemetry_value(&stage, out_channel_ids(1).clipped);
    assert_eq!(left_clipped, 1.0, "left channel should be latched clipped");
    assert_eq!(right_clipped, 0.0, "right channel should not be clipped");
}

// ---------------------------------------------------------------------------------------------
// The assembled chain, under real signals.
// ---------------------------------------------------------------------------------------------

#[test]
fn the_delay_estimator_recovers_a_known_delay() {
    let input = chirp(4096, 200.0, 6000.0, SR, 0.5);
    for delay in [0usize, 1, 37, 512] {
        let mut output = vec![0.0f32; delay];
        output.extend(input.iter().map(|x| x * 0.37));
        assert_eq!(
            estimate_delay_samples(&input, &output, 1024),
            delay,
            "estimator missed a constructed delay of {delay}"
        );
    }
}

#[test]
fn min_window_peak_finds_a_dropout() {
    let mut signal = sine(1024, 220.0, SR, 0.5);
    assert!(min_window_peak(&signal, 32) > 0.1);
    signal[256..320].fill(0.0);
    assert!(min_window_peak(&signal, 32) < 1e-6);
}

#[test]
fn builds_and_runs_silently_for_every_channel_config() {
    for config in [ChannelConfig::Mono, ChannelConfig::MonoToStereo, ChannelConfig::Stereo] {
        let ctx = ctx_for(config);
        let mut chain = default_chain(&ctx);
        let silent = [0.0f32; 64];
        let channels: Vec<&[f32]> = (0..config.output_channels()).map(|_| &silent[..]).collect();
        let mut io = block_of(&channels);
        chain.process(&mut io);
        for ch in 0..io.channel_count() {
            for x in heard(&io, ch) {
                assert!(x.is_finite());
                assert_eq!(x, 0.0, "expected silence with nothing loaded");
            }
        }
        assert_eq!(chain.fault_count(), 0);
    }
}

#[test]
fn reports_a_nonzero_latency_only_from_stages_that_declare_one() {
    let chain = default_chain(&ctx());
    assert_eq!(chain.latency_samples(), 0);
}

/// One position in the chain.
#[derive(Clone, Copy, PartialEq, Eq, Debug)]
enum Slot {
    Gate,
    Trim,
    Nam,
    Ir,
    Eq,
    Out,
}

const CHAIN_ORDER: [Slot; 6] =
    [Slot::Gate, Slot::Trim, Slot::Nam, Slot::Ir, Slot::Eq, Slot::Out];

fn build_stage_list(order: &[Slot], ctx: &PrepareContext) -> Vec<ChainStage<F32Math>> {
    order
        .iter()
        .map(|slot| match slot {
            Slot::Gate => ChainStage::Gate(Box::new(gate_prep(ctx).prepare(ctx).unwrap())),
            Slot::Trim => ChainStage::Plain(trim(ctx)),
            Slot::Nam => ChainStage::Nam(Box::new(nam_prep().prepare(ctx).unwrap())),
            Slot::Ir => ChainStage::Ir(Box::new(ir_prep(ctx).prepare(ctx).unwrap())),
            Slot::Eq => ChainStage::Eq(Box::new(eq_prep(ctx).prepare(ctx).unwrap())),
            Slot::Out => ChainStage::Out(Box::new(out_prep(ctx).prepare(ctx).unwrap())),
        })
        .collect()
}

fn build_in_order(order: &[Slot], ctx: &PrepareContext) -> TestChain {
    let mut chain = chain_of(build_stage_list(order, ctx));
    chain.prepare_crosscutting(ctx);
    chain
}

#[test]
fn fr_chain_010_a_probe_signal_pins_every_position_in_the_shipped_chain() {
    const WARMUP: usize = 8_000;
    const FRAMES: usize = 24_000;

    let ctx = ctx();
    let model = weights(7);
    let cabinet = mono_taps(3, 512);
    let input = duplicated(&chirp(FRAMES, 100.0, 8_000.0, SR, 0.3), 1);

    let gate_probe = |chain: &mut TestChain| {
        set_param(chain, GATE_IDS.threshold_db, -30.0);
        set_param(chain, TRIM_GAIN_DB_ID, -40.0);
    };
    let hot_probe = |chain: &mut TestChain| {
        set_param(chain, GATE_IDS.threshold_db, -80.0);
        set_param(chain, TRIM_GAIN_DB_ID, 12.0);
        set_param(chain, EQ_IDS.low_shelf_gain_db, 6.0);
        set_param(chain, EQ_IDS.mid_gain_db, -6.0);
        set_param(chain, EQ_IDS.high_shelf_gain_db, 4.0);
        set_param(chain, OUT_GAIN_DB_ID, -30.0);
    };
    let run_order = |order: Option<&[Slot]>, configure: &dyn Fn(&mut TestChain)| -> Vec<f32> {
        let mut chain = match order {
            Some(order) => build_in_order(order, &ctx),
            None => default_chain(&ctx),
        };
        configure(&mut chain);
        load_nam(&mut chain, &model, &ctx);
        load_ir(&mut chain, &cabinet, &ctx);
        run(&mut chain, &input, BLOCK)[0][WARMUP..].to_vec()
    };

    let gated_reference = run_order(Some(&CHAIN_ORDER), &gate_probe);
    let hot_reference = run_order(Some(&CHAIN_ORDER), &hot_probe);

    // The default chain and the stated order are the same chain, under both probes.
    for (configure, mandated) in [
        (&gate_probe as &dyn Fn(&mut TestChain), &gated_reference),
        (&hot_probe, &hot_reference),
    ] {
        let shipped = run_order(None, configure);
        assert_eq!(
            max_abs_difference(&shipped, mandated),
            0.0,
            "the default chain is not gate -> trim -> nam -> ir -> eq -> out"
        );
    }

    // The three adjacent transpositions a probe signal can see.
    for (position, configure, reference) in [
        (0usize, &gate_probe as &dyn Fn(&mut TestChain), &gated_reference),
        (1, &hot_probe, &hot_reference),
        (2, &hot_probe, &hot_reference),
    ] {
        let mut swapped_order = CHAIN_ORDER;
        swapped_order.swap(position, position + 1);
        let swapped = run_order(Some(&swapped_order), configure);
        let difference = max_abs_difference(reference, &swapped);
        let scale = peak(reference);
        assert!(scale > 1e-3, "no signal at {:?}", CHAIN_ORDER[position]);
        assert!(
            difference > 0.1 * scale,
            "swapping {:?} and {:?} moved the output by only {difference} against {scale}",
            CHAIN_ORDER[position],
            CHAIN_ORDER[position + 1],
        );
    }

    // The two between linear stages, which no signal can tell apart.
    for position in [3usize, 4] {
        let mut swapped_order = CHAIN_ORDER;
        swapped_order.swap(position, position + 1);
        let swapped = run_order(Some(&swapped_order), &hot_probe);
        let difference = max_abs_difference(&hot_reference, &swapped);
        let scale = peak(&hot_reference);
        assert!(
            difference < 1e-3 * scale,
            "swapping {:?} and {:?} moved the output by {difference} against {scale}",
            CHAIN_ORDER[position],
            CHAIN_ORDER[position + 1],
        );
    }
}

#[test]
fn fr_chain_020_toggling_one_stages_bypass_mid_signal_leaves_the_others_undisturbed() {
    const TOGGLE_BLOCK: usize = 300; // ~400 ms in, long after every ramp has settled.
    const TOTAL_BLOCKS: usize = 900; // ~1.2 s, leaving ~0.8 s to converge.
    const FRAMES: usize = TOTAL_BLOCKS * BLOCK;
    const TAIL: usize = FRAMES - 12_000;

    let ctx = ctx();
    let model = weights(11);
    let cabinet = mono_taps(5, 512);
    let input = duplicated(&sine(FRAMES, 220.0, SR, 0.3), 1);

    for (stage_name, enabled, gate_threshold_db) in [
        // An open gate and a bypassed one are the same, so its own row needs it closed.
        ("gate", GATE_IDS.enabled, -6.0),
        ("nam", NAM_IDS.enabled, -60.0),
        ("ir", IR_IDS.enabled, -60.0),
        ("eq", EQ_IDS.enabled, -60.0),
    ] {
        let run_toggled = |toggle_at: Option<usize>, initially_on: bool| -> Vec<f32> {
            let mut chain = default_chain(&ctx);
            set_param(&mut chain, GATE_IDS.threshold_db, gate_threshold_db);
            set_param(&mut chain, EQ_IDS.low_shelf_gain_db, 5.0);
            set_param(&mut chain, EQ_IDS.mid_gain_db, -9.0);
            set_param(&mut chain, OUT_GAIN_DB_ID, -12.0);
            if !initially_on {
                set_param(&mut chain, enabled, 0.0);
            }
            load_nam(&mut chain, &model, &ctx);
            load_ir(&mut chain, &cabinet, &ctx);
            run_with(&mut chain, &input, BLOCK, |block, chain| {
                if Some(block) == toggle_at {
                    set_param(chain, enabled, 0.0);
                }
            })
            .remove(0)
        };

        let all_on = run_toggled(None, true);
        let off_from_the_start = run_toggled(None, false);
        let toggled = run_toggled(Some(TOGGLE_BLOCK), true);

        let before = ..TOGGLE_BLOCK * BLOCK;
        assert_eq!(
            max_abs_difference(&toggled[before], &all_on[before]),
            0.0,
            "{stage_name}: the output changed before its bypass was ever toggled"
        );

        let scale = peak(&all_on[TAIL..]).max(peak(&off_from_the_start[TAIL..]));
        assert!(scale > 1e-3, "{stage_name}: the probe produced no signal");

        let residue = max_abs_difference(&toggled[TAIL..], &off_from_the_start[TAIL..]);
        assert!(
            residue < 0.02 * scale,
            "{stage_name}: a chain whose bypass was flipped mid-signal has not converged onto one \
             bypassed from the start (residue {residue} against a peak of {scale})"
        );

        let effect = max_abs_difference(&all_on[TAIL..], &off_from_the_start[TAIL..]);
        assert!(
            effect > 0.05 * scale,
            "{stage_name}: bypassing it changes the output by only {effect} against {scale}"
        );

        let window = TOGGLE_BLOCK * BLOCK..TOGGLE_BLOCK * BLOCK + 8_000;
        let baseline = max_abs_first_difference(&all_on[window.clone()])
            .max(max_abs_first_difference(&off_from_the_start[window.clone()]));
        let jump = max_abs_first_difference(&toggled[window]);
        assert!(
            jump <= 3.0 * baseline,
            "{stage_name}: bypassing it mid-signal produced a step of {jump} against a no-toggle \
             baseline of {baseline} (allowed 3x)"
        );
    }
}

/// What the trim makes of two channels that carry the same signal.
fn downmix_scale() -> f32 {
    2.0 * db_to_linear(-6.0)
}

#[test]
fn fr_chain_050_every_configuration_duplicates_one_mono_core_result() {
    const FRAMES: usize = 24_000;
    const WARMUP: usize = 8_000;

    let model = weights(13);
    let cabinet = mono_taps(7, 512);
    let left = sine(FRAMES, 220.0, SR, 0.3);
    let right = sine(FRAMES, 3_100.0, SR, 0.3);

    let run_config = |config: ChannelConfig, input: Vec<Vec<f32>>| -> Vec<Vec<f32>> {
        let ctx = ctx_for(config);
        let mut chain = default_chain(&ctx);
        set_param(&mut chain, GATE_IDS.threshold_db, -60.0);
        set_param(&mut chain, OUT_GAIN_DB_ID, -12.0);
        load_nam(&mut chain, &model, &ctx);
        load_ir(&mut chain, &cabinet, &ctx);
        run(&mut chain, &input, BLOCK)
    };

    let scaled: Vec<f32> = left.iter().map(|x| x * downmix_scale()).collect();
    let mono = run_config(ChannelConfig::Mono, vec![scaled]);
    assert_eq!(mono.len(), 1);
    let scale = peak(&mono[0][WARMUP..]);
    assert!(scale > 1e-3, "the probe produced no signal");

    for (config, input) in [
        (ChannelConfig::MonoToStereo, duplicated(&left, 2)),
        (ChannelConfig::Stereo, vec![left.clone(), right.clone()]),
    ] {
        let widened = run_config(config, input);
        assert_eq!(widened.len(), 2, "{config:?} must produce 2 channels");
        assert_eq!(
            max_abs_difference(&widened[0], &widened[1]),
            0.0,
            "{config:?}: the two output channels are not the same signal"
        );
        let residue = max_abs_difference(&widened[0][WARMUP..], &mono[0][WARMUP..]);
        assert!(
            residue < 0.01 * scale,
            "{config:?}: the core result differs from the mono one by {residue} against {scale}"
        );
    }

    let stereo = run_config(ChannelConfig::Stereo, vec![left, right.clone()]);
    let right_only = run_config(
        ChannelConfig::Mono,
        vec![right.iter().map(|x| x * downmix_scale()).collect()],
    );
    assert!(
        max_abs_difference(&stereo[0][WARMUP..], &right_only[0][WARMUP..]) > 0.1 * scale,
        "this probe cannot tell which channel reached the core"
    );
}

#[test]
fn fr_chain_060_every_configuration_runs_with_a_real_ir_in_its_ir_stage() {
    const FRAMES: usize = 16_000;
    const WARMUP: usize = 4_000;

    let model = weights(17);
    let signal = chirp(FRAMES, 120.0, 6_000.0, SR, 0.3);

    let run_config = |config: ChannelConfig, stereo_cabinet: bool| -> Vec<Vec<f32>> {
        let ctx = ctx_for(config);
        let cabinet = if stereo_cabinet { stereo_taps(23, 512) } else { mono_taps(29, 512) };
        let mut chain = default_chain(&ctx);
        set_param(&mut chain, GATE_IDS.threshold_db, -60.0);
        set_param(&mut chain, OUT_GAIN_DB_ID, -12.0);
        load_nam(&mut chain, &model, &ctx);
        load_ir(&mut chain, &cabinet, &ctx);
        run(&mut chain, &duplicated(&signal, config.output_channels()), BLOCK)
    };

    for config in [ChannelConfig::Mono, ChannelConfig::MonoToStereo, ChannelConfig::Stereo] {
        let channels = config.output_channels();
        for stereo_cabinet in [false, true] {
            let out = run_config(config, stereo_cabinet);
            assert_eq!(out.len(), channels, "{config:?}: wrong channel count");
            for (index, channel) in out.iter().enumerate() {
                assert!(
                    channel.iter().all(|x| x.is_finite()),
                    "{config:?}: channel {index} produced a non-finite sample"
                );
                assert!(
                    peak(&channel[WARMUP..]) > 1e-3,
                    "{config:?}: channel {index} produced no signal with an IR loaded"
                );
            }
            if channels < 2 {
                continue;
            }
            let spread = max_abs_difference(&out[0][WARMUP..], &out[1][WARMUP..]);
            let scale = peak(&out[0][WARMUP..]);
            if stereo_cabinet {
                assert!(
                    spread > 0.05 * scale,
                    "{config:?}: a stereo IR produced two identical output channels \
                     (spread {spread} against a peak of {scale})"
                );
            } else {
                assert_eq!(
                    spread, 0.0,
                    "{config:?}: a dual-mono IR must widen to two identical channels"
                );
            }
        }
    }
}

#[test]
fn fr_chain_080_a_nan_in_any_stages_state_is_contained_and_flagged() {
    const NAN_BLOCK: usize = 12;
    const BLOCKS: usize = 40;
    const FRAMES: usize = BLOCKS * BLOCK;

    let ctx = ctx();
    let model = weights(31);
    let cabinet = mono_taps(37, 512);
    let clean = duplicated(&sine(FRAMES, 220.0, SR, 0.3), 1);

    // `None`: the NaN arrives in the chain's own input buffer.
    for position in [None, Some(0usize), Some(1), Some(2), Some(3), Some(4), Some(5)] {
        let mut chain = match position {
            None => default_chain(&ctx),
            Some(position) => {
                let mut built = build_stage_list(&CHAIN_ORDER[..position], &ctx);
                built.push(plain(NanOnBlock { block: NAN_BLOCK, seen: 0 }));
                built.extend(build_stage_list(&CHAIN_ORDER[position..], &ctx));
                let mut chain = chain_of(built);
                chain.prepare_crosscutting(&ctx);
                chain
            }
        };
        set_param(&mut chain, GATE_IDS.threshold_db, -60.0);
        set_param(&mut chain, OUT_GAIN_DB_ID, -12.0);
        load_nam(&mut chain, &model, &ctx);
        load_ir(&mut chain, &cabinet, &ctx);

        let mut input = clean.clone();
        if position.is_none() {
            input[0][NAN_BLOCK * BLOCK] = f32::NAN;
        }
        let out = run(&mut chain, &input, BLOCK);

        let label = match position {
            None => "the chain's own input".to_string(),
            Some(position) => format!("{:?}'s state", CHAIN_ORDER[position]),
        };
        assert!(
            out[0].iter().all(|x| x.is_finite()),
            "a NaN injected into {label} reached the chain's output"
        );
        let affected = &out[0][NAN_BLOCK * BLOCK..(NAN_BLOCK + 1) * BLOCK];
        assert!(
            affected.iter().all(|x| *x == 0.0),
            "a NaN injected into {label} did not replace its whole block with silence"
        );
        assert!(
            chain.fault_count() > 0,
            "a NaN injected into {label} did not set the fault indicator"
        );
        assert!(
            peak(&out[0][..NAN_BLOCK * BLOCK]) > 1e-3,
            "the {label} run produced no signal to be faulted out of"
        );
    }
}

#[test]
fn nfr_perf_020_measured_group_delay_never_exceeds_the_reported_latency() {
    const FRAMES: usize = 32_768;
    const WARMUP: usize = 8_192;
    const WINDOW: usize = 8_192;

    let signal = chirp(FRAMES, 200.0, 6_000.0, SR, 0.25);
    let input = duplicated(&signal, 1);
    let ctx = ctx();

    let measure = |declared_rate_hz: u32| -> (u32, usize) {
        let mut chain = default_chain(&ctx);
        set_param(&mut chain, GATE_IDS.threshold_db, -70.0);
        set_param(&mut chain, OUT_GAIN_DB_ID, -12.0);
        load_nam_at(&mut chain, &weights(43), declared_rate_hz, &ctx);
        let out = run(&mut chain, &input, BLOCK);
        let reported = chain.latency_samples();
        let measured = estimate_delay_samples(
            &signal[WARMUP..WARMUP + WINDOW],
            &out[0][WARMUP..],
            reported as usize * 2 + 64,
        );
        (reported, measured)
    };

    let (reported, measured) = measure(SR);
    assert_eq!(reported, 0, "a model at the engine's own rate engages no conversion");
    assert_eq!(
        measured, 0,
        "the chain reports zero latency but delays the signal by {measured} samples"
    );

    let (reported, measured) = measure(44_100);
    assert!(reported > 0, "a model at a different rate must report its latency");
    assert!(
        measured <= reported as usize,
        "the chain delays the signal by {measured} samples while reporting only {reported}"
    );
    assert!(
        measured * 4 >= reported as usize,
        "the chain reports {reported} samples of latency but only {measured} are measurable"
    );
    assert_eq!((reported, measured), (640, 640));
}

#[test]
fn bypass_compensation_tracks_the_latency_a_resampled_model_adds_at_runtime() {
    const FRAMES: usize = 16_384;
    const BYPASS_AT_BLOCK: usize = 128;
    const SETTLE_FRAMES: usize = 5_120;

    let ctx = ctx();
    let signal = sine(FRAMES, 220.0, SR, 0.25);
    let input = duplicated(&signal, 1);

    let mut chain = default_chain(&ctx);
    set_param(&mut chain, GATE_IDS.threshold_db, -70.0);
    load_nam_at(&mut chain, &weights(43), 44_100, &ctx);

    let out = run_with(&mut chain, &input, BLOCK, |i, chain| {
        if i == BYPASS_AT_BLOCK {
            set_param(chain, GLOBAL_BYPASS_ID, 1.0);
        }
    });

    let reported = chain.latency_samples() as usize;
    assert!(reported > 0, "a model at a different declared rate must report its latency");

    let switch = BYPASS_AT_BLOCK * BLOCK;
    let null_floor = db_to_linear(-120.0);
    let peak_residual = (switch + SETTLE_FRAMES..FRAMES)
        .map(|n| (out[0][n] - signal[n - reported]).abs())
        .fold(0.0f32, f32::max);
    assert!(
        peak_residual <= null_floor,
        "bypassed output minus input delayed by the {reported} samples the chain reports peaked \
         at {peak_residual:e}, above the -120 dBFS null floor {null_floor:e}"
    );
}

/// The block size both runs of the split probe are prepared for.
const SPLIT_BLOCK: usize = 512;
/// The offsets a block is cut at, one per block in turn.
const SPLIT_OFFSETS: [usize; 5] = [1, 37, 256, 300, SPLIT_BLOCK - 1];
const SPLIT_SETTLE_FRAMES: usize = 8_192;

/// Runs `input` in blocks that are each handed over in two parts.
fn run_split(chain: &mut TestChain, input: &[Vec<f32>], frames: usize) -> Vec<Vec<f32>> {
    let mut out: Vec<Vec<f32>> = input.iter().map(|_| Vec::with_capacity(frames)).collect();
    let mut offset = 0;
    let mut index = 0;
    while offset < frames {
        let whole = SPLIT_BLOCK.min(frames - offset);
        let cut = SPLIT_OFFSETS[index % SPLIT_OFFSETS.len()].min(whole);
        for n in [cut, whole - cut] {
            if n == 0 {
                continue;
            }
            let channels: Vec<&[f32]> = input.iter().map(|c| &c[offset..offset + n]).collect();
            let mut io = block_of(&channels);
            chain.process(&mut io);
            for (ch, channel) in out.iter_mut().enumerate() {
                channel.extend(heard(&io, ch));
            }
            offset += n;
        }
        index += 1;
    }
    out
}

fn split_probe_chain(ctx: &PrepareContext) -> TestChain {
    let mut chain = default_chain(ctx);
    set_param(&mut chain, GATE_IDS.threshold_db, -70.0);
    load_nam_at(&mut chain, &weights(43), 44_100, ctx);
    load_ir(&mut chain, &mono_taps(7, 2_048), ctx);
    let settle = duplicated(
        &sine(SPLIT_SETTLE_FRAMES, 440.0, SR, 0.05),
        ctx.channel_config().output_channels(),
    );
    run(&mut chain, &settle, SPLIT_BLOCK);
    chain
}

#[test]
fn splitting_a_block_the_way_host_automation_does_changes_nothing() {
    const FRAMES: usize = 16_384;
    const SPLIT_TOLERANCE: f32 = 1e-6;

    let ctx = ctx_at(SR, SPLIT_BLOCK, ChannelConfig::Stereo);
    let input = duplicated(&chirp(FRAMES, 200.0, 6_000.0, SR, 0.05), 2);

    let mut whole_chain = split_probe_chain(&ctx);
    let whole = run(&mut whole_chain, &input, SPLIT_BLOCK);
    let reported = whole_chain.latency_samples();

    let mut split_chain = split_probe_chain(&ctx);
    let split = run_split(&mut split_chain, &input, FRAMES);

    assert!(reported > 0, "the resampler never engaged");
    assert_eq!(
        split_chain.latency_samples(),
        reported,
        "the two runs report different latencies, so they are not the same chain"
    );
    for (channel, (whole, split)) in whole.iter().zip(split.iter()).enumerate() {
        assert_eq!(whole.len(), FRAMES, "channel {channel}: short reference run");
        assert_eq!(split.len(), FRAMES, "channel {channel}: short split run");
        let level = peak(whole);
        assert!(level > 1e-3, "channel {channel}: no signal ({level:e}) to compare against");
        let difference = max_abs_difference(whole, split);
        assert!(
            difference <= SPLIT_TOLERANCE,
            "channel {channel}: cutting each block in two moved the output by {difference:e} \
             against a peak of {level:e}"
        );
    }
}

#[test]
fn a_settled_chain_sounds_the_same_to_the_last_bit_however_a_block_is_cut() {
    const FRAMES: usize = 4_096;
    let ctx = ctx_at(SR, SPLIT_BLOCK, ChannelConfig::Stereo);
    let input = duplicated(&chirp(FRAMES, 200.0, 6_000.0, SR, 0.05), 2);
    let whole = run(&mut split_probe_chain(&ctx), &input, SPLIT_BLOCK);
    let split = run_split(&mut split_probe_chain(&ctx), &input, FRAMES);
    assert!(whole == split);
}

#[test]
fn the_split_probe_would_notice_a_single_spliced_sample() {
    const FRAMES: usize = 4_096;

    let ctx = ctx_at(SR, SPLIT_BLOCK, ChannelConfig::Stereo);
    let input = duplicated(&chirp(FRAMES, 200.0, 6_000.0, SR, 0.05), 2);

    let mut whole_chain = split_probe_chain(&ctx);
    let whole = run(&mut whole_chain, &input, SPLIT_BLOCK);
    let mut split_chain = split_probe_chain(&ctx);
    let split = run_split(&mut split_chain, &input, FRAMES);

    let shifted = whole[0]
        .iter()
        .zip(split[0].iter().skip(1))
        .map(|(a, b)| (a - b).abs())
        .fold(0.0f32, f32::max);
    let level = peak(&whole[0]);
    assert!(
        shifted > level * 0.01,
        "shifting the comparison by one sample moves it only {shifted:e} against {level:e}"
    );
}

/// A handover's length in frames.
const FADE_FRAMES: usize = (HANDOVER_CROSSFADE_MS as usize) * (SR as usize) / 1000;
const ONSET_BLOCKS: [usize; 4] = [512, 256, 64, 1];
const ONSET_PREPARED_BLOCK: usize = 512;

#[derive(Clone, Copy, Debug)]
enum FirstLoad {
    Nam,
    Ir,
}

/// The same signal through a chain with nothing loaded, and through one with `what` loaded before
/// the first block.
fn first_load_pair(what: FirstLoad, block: usize, frames: usize) -> (Vec<f32>, Vec<f32>) {
    let ctx = ctx_at(SR, ONSET_PREPARED_BLOCK, ChannelConfig::Mono);
    let input = duplicated(&sine(frames, 220.0, SR, 0.25), 1);
    let build = || {
        let mut chain = default_chain(&ctx);
        set_param(&mut chain, GATE_IDS.threshold_db, -70.0);
        chain
    };

    let mut baseline_chain = build();
    let mut baseline = run(&mut baseline_chain, &input, block);
    let mut loaded_chain = build();
    match what {
        FirstLoad::Nam => load_nam(&mut loaded_chain, &weights(11), &ctx),
        FirstLoad::Ir => load_ir(&mut loaded_chain, &mono_taps(5, 1_024), &ctx),
    }
    let mut loaded = run(&mut loaded_chain, &input, block);
    (baseline.remove(0), loaded.remove(0))
}

fn first_divergence(baseline: &[f32], loaded: &[f32]) -> Option<usize> {
    baseline.iter().zip(loaded.iter()).position(|(a, b)| a.to_bits() != b.to_bits())
}

#[test]
fn a_first_load_is_audible_inside_its_own_fade_at_every_block_size() {
    const ONSET_TOLERANCE_FRAMES: usize = 8;
    const FRAMES: usize = 8_192;
    const SETTLED: usize = 4_096;

    for what in [FirstLoad::Nam, FirstLoad::Ir] {
        let mut onsets: Vec<(usize, usize)> = Vec::new();
        for block in ONSET_BLOCKS {
            let (baseline, loaded) = first_load_pair(what, block, FRAMES);
            let settled_difference = max_abs_difference(&baseline[SETTLED..], &loaded[SETTLED..]);
            assert!(
                settled_difference > 1e-3,
                "{what:?} at block {block}: loading changed the settled output by only \
                 {settled_difference:e}"
            );

            let onset = first_divergence(&baseline, &loaded).unwrap_or_else(|| {
                panic!("{what:?} at block {block}: the loaded run never diverged from the baseline")
            });
            assert!(
                onset <= ONSET_TOLERANCE_FRAMES,
                "{what:?} at block {block}: the wet signal first appears at frame {onset}, not \
                 inside the {FADE_FRAMES}-frame fade that started at frame 0"
            );
            assert_eq!(
                baseline[0].to_bits(),
                loaded[0].to_bits(),
                "{what:?} at block {block}: the fade's first sample must be the dry signal"
            );

            // A fade, not a step.
            let fade_slew = max_abs_first_difference(&loaded[..FADE_FRAMES]);
            let dry_slew = max_abs_first_difference(&baseline[..FADE_FRAMES]);
            let settled_slew = max_abs_first_difference(&loaded[SETTLED..]);
            let bound = (dry_slew + settled_slew) * 1.05;
            assert!(
                fade_slew <= bound,
                "{what:?} at block {block}: the largest single-sample step inside the fade is \
                 {fade_slew:e}, above {bound:e}"
            );
            onsets.push((block, onset));
        }
        let (_, first_onset) = onsets[0];
        assert!(
            onsets.iter().all(|&(_, onset)| onset == first_onset),
            "{what:?}: the frame the wet signal appears at depends on the block size: {onsets:?}"
        );
    }
}

const MISMATCHED_MODEL_RATE: u32 = 44_100;
const HANDOVER_SETTLE_FRAMES: usize = 4_096;

fn handover_probe_chain(ctx: &PrepareContext) -> TestChain {
    let mut chain = default_chain(ctx);
    set_param(&mut chain, GATE_IDS.threshold_db, -70.0);
    chain
}

#[test]
fn a_handover_into_a_resampled_model_never_fades_against_its_priming_silence() {
    const FRAMES: usize = 8_192;
    const BLOCK_N: usize = 256;
    const FADE_WINDOW: usize = 2_048;
    const ENVELOPE_WINDOW: usize = 64;
    const SAG_TOLERANCE_DB: f32 = 0.2;

    let ctx = ctx_at(SR, BLOCK_N, ChannelConfig::Mono);
    let signal = sine(FRAMES, 1_000.0, SR, 0.25);
    let input = duplicated(&signal, 1);
    let model = weights(11);

    let mut chain = handover_probe_chain(&ctx);
    load_nam_at(&mut chain, &model, MISMATCHED_MODEL_RATE, &ctx);
    let settling = duplicated(&signal[..HANDOVER_SETTLE_FRAMES], 1);
    run(&mut chain, &settling, BLOCK_N);
    assert!(chain.latency_samples() > 0, "the first model never engaged the resampler");

    // The same model again, on the first block of the measured run.
    let out = run_with(&mut chain, &input, BLOCK_N, |i, chain| {
        if i == 0 {
            load_nam_at(chain, &model, MISMATCHED_MODEL_RATE, &ctx);
        }
    });
    let rendered = &out[0];

    let settled = peak(&rendered[FRAMES - HANDOVER_SETTLE_FRAMES..]);
    assert!(settled > 1e-3, "the settled level is {settled:e}");
    let worst = min_window_peak(&rendered[..FADE_WINDOW], ENVELOPE_WINDOW);
    let sag_db = 20.0 * (worst / settled).log10();
    assert!(
        sag_db >= -SAG_TOLERANCE_DB,
        "reloading the same rate-mismatched model dipped the output envelope to {worst:e} against \
         a settled {settled:e} ({sag_db:+.2} dB) inside its own handover"
    );
}

#[test]
fn a_resampled_first_load_is_the_dry_signal_until_its_pipeline_has_primed() {
    const FRAMES: usize = 8_192;
    const BLOCK_N: usize = 256;
    const ONSET_TOLERANCE_FRAMES: usize = 8;

    let ctx = ctx_at(SR, BLOCK_N, ChannelConfig::Mono);
    let input = duplicated(&sine(FRAMES, 220.0, SR, 0.25), 1);
    let model = weights(11);

    let mut baseline_chain = handover_probe_chain(&ctx);
    let baseline = run(&mut baseline_chain, &input, BLOCK_N);
    let mut loaded_chain = handover_probe_chain(&ctx);
    let loaded = run_with(&mut loaded_chain, &input, BLOCK_N, |i, chain| {
        if i == 0 {
            load_nam_at(chain, &model, MISMATCHED_MODEL_RATE, &ctx);
        }
    });

    let hold = loaded_chain.latency_samples() as usize;
    assert!(hold > 0, "the model never engaged the resampler");

    let onset = first_divergence(&baseline[0], &loaded[0])
        .expect("the loaded run never diverged from the baseline at all");
    assert!(
        onset >= hold,
        "a model whose pipeline cannot produce a real sample for {hold} frames changed the \
         output at frame {onset}"
    );
    assert!(
        onset <= hold + ONSET_TOLERANCE_FRAMES,
        "the wet signal first appears at frame {onset}, {} frames after the {hold}-frame hold",
        onset - hold
    );
}
