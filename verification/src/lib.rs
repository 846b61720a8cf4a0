//! The real-time engine of a guitar amplifier and cabinet simulator.
//!
//! Six stages in a fixed order ([`stages`]) make up a [`chain::Chain`], which adds what no single
//! stage can provide: a click-free global bypass that keeps the reported latency, and containment
//! of blocks that are not finite or too loud. An [`engine::AudioEngine`] runs a chain on the audio
//! thread. It takes its commands from a lock-free [`ring`], hands every replaced resource back
//! through another one, and publishes its readings through a [`telemetry_ring`] that never blocks.
//!
//! Models and impulse responses are made ready elsewhere and travel as [`resource::Resource`]s. The
//! stages that hold them fade from one to the next ([`stages::handover`]).
//!
//! The engine does no floating-point arithmetic. A [`sample::Sample`] is the bit pattern of a
//! number; whatever computes with it is a [`stage::Stage`] or a [`math::SampleMath`], supplied by
//! the program the engine runs in. The contracts say what is handed to them, in which order, and
//! what becomes of what they return.

pub mod chain;
pub mod chain_stage;
pub mod chain_streams;
pub mod command;
pub mod delay_line;
pub mod engine;
pub mod error_codes;
pub mod laws;
pub mod math;
pub mod param;
pub mod prepare;
pub mod resource;
pub mod ring;
pub mod sample;
pub mod stage;
pub mod stage_io;
pub mod stages;
pub mod telemetry;
pub mod telemetry_ring;
pub mod twins;
