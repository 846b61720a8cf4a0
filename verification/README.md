# namir_engine

The real-time engine of a guitar amplifier and cabinet simulator, written in Verus.

    input -> noise gate -> input trim -> amp model -> cabinet -> equaliser -> output

`src/` is the engine: the chain and its stages, the handover between loaded resources, the command
and telemetry rings, and the audio thread's loop over them. All of it is verified. It computes on
bit patterns and moves them; it does no floating-point arithmetic.

`app/` is what the engine runs in: the arithmetic, the processors the stages hold (filters, gains,
meters, amp models behind sample-rate converters, convolution), and the bridge to a host's buffers.

`tests/` runs the engine on signals, with small but real processors of its own.

## Reading the contracts

A processor (`stage::Stage`) gives its own account of itself: what it may make of a block
(`renders`), which processor it is (`identity`), what it has been told (`told`), which blocks it has
processed since it was last cleared (`played`), and all that was ever done to it (`history`). What
the engine's functions ensure is stated over these: which processor sees which block, in what order,
what it is told, and when it is cleared. The relations `passes`, `hears` and `clears_to` on
`stage::BoxedStage` put them together.

Each stage states what one call comes to as a relation between the stage before and after it:
`plays` for a block, `applies` for a parameter update, `resets_to` for a reset. The chain and the
engine state theirs over those of the stages.

Proof functions beside the code state what follows across calls: that no resource is ever lost
(`engine`, `stages::handover`), that nothing harmful leaves the chain (`chain`), that the newest
readings survive (`telemetry_ring`), that a filter becomes what its stage decided
(`stages::filter`).

Some of them speak of streams, that is of any number of blocks, and say that where one block ends
and the next begins makes no difference:

- to a settled bypass (`chain_streams`);
- to a settled chain, that is one that is not bypassed, with no handover under way and not on its
  way to silence (`stages::product`, from the rules its stages go by: `chain_streams`,
  `stages::rules`, `stages::resource_rules`);
- to a chain that has just been given its first model or response, which does not differ from one
  with nothing loaded before the fade moves (`stages::onset`);
- to how a first model or response fades in, and to an amp stage with nothing loaded
  (`stages::streams`);
- to the noise gate, the equaliser, the cabinet's filters and an amp model, as far as the processors
  in them go by the samples alone (`stages::seamless`);
- to the parts these are made of: delay, blend, fade and queues (`delay_line`, `stages::bypass`,
  `stages::handover`, `stages::resampler`).

Of every chain this does not hold to the last bit: the output stage decides once per block whether a
channel has come to silence, and so does the bypass whether its crossfade is over.

Two chains whose processors give the same accounts of themselves go on to sound the same (`twins`),
so a parameter update is heard the same whether it is applied at once or comes through the ring.

What is taken on trust about the ring buffers of the `rtrb` crate is declared in `src/ring.rs`.
