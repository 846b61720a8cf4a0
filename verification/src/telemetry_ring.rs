//! The outbound telemetry ring: written by the audio thread, read at UI frame rate, overwriting
//! the oldest reading when it is full.
//!
//! A reading is packed into one 64-bit word, and a word is stored and loaded indivisibly, so no
//! reader can ever see one reading's id beside another's value. A reader that is lapped while it
//! drains sees newer readings in older places; each of them is a reading that was published.

use std::sync::atomic::{AtomicU64, Ordering};
use std::sync::Arc;

use vstd::arithmetic::div_mod::lemma_fundamental_div_mod;
use vstd::prelude::*;

use crate::sample::Sample;
use crate::telemetry::{newest, TelemetryEntry};

verus! {

/// The weight of an id in a packed word.
pub const ID_WEIGHT: u64 = 0x1_0000_0000;

/// A reading as one word: the id in the upper half, the value's bit pattern in the lower.
pub open spec fn packed(entry: TelemetryEntry) -> u64 {
    (entry.id * ID_WEIGHT + entry.value.bits) as u64
}

/// The reading in a word.
pub open spec fn unpacked(word: u64) -> TelemetryEntry {
    TelemetryEntry {
        id: (word / ID_WEIGHT) as u32,
        value: Sample { bits: (word % ID_WEIGHT) as u32 },
    }
}

/// Packing loses nothing, whatever the id and whatever the value, NaNs and negative zero included.
pub proof fn packing_round_trips(entry: TelemetryEntry)
    ensures
        unpacked(packed(entry)) == entry,
{
}

/// Every word is the packing of the reading in it: there are no invalid words.
pub proof fn unpacking_round_trips(word: u64)
    ensures
        packed(unpacked(word)) == word,
{
}

/// Packs a reading.
pub fn pack(entry: TelemetryEntry) -> (word: u64)
    ensures
        word == packed(entry),
{
    entry.id as u64 * ID_WEIGHT + entry.value.bits as u64
}

/// Unpacks a word.
pub fn unpack(word: u64) -> (entry: TelemetryEntry)
    ensures
        entry == unpacked(word),
{
    TelemetryEntry {
        id: (word / ID_WEIGHT) as u32,
        value: Sample { bits: (word % ID_WEIGHT) as u32 },
    }
}

/// The least power of two, times `from`, that is not below `wanted`.
pub open spec fn doubled_to(from: nat, wanted: nat) -> nat
    decreases 2 * wanted - from,
{
    if from == 0 || from >= wanted {
        from
    } else {
        doubled_to(2 * from, wanted)
    }
}

/// How many slots a ring for `capacity` readings has: the least power of two that is enough.
pub open spec fn slots_for(capacity: nat) -> nat {
    doubled_to(1, capacity)
}

/// There are enough slots, and never twice as many as needed.
pub proof fn slots_suffice(capacity: nat)
    ensures
        slots_for(capacity) >= capacity,
        slots_for(capacity) >= 1,
        capacity >= 1 ==> slots_for(capacity) < 2 * capacity,
{
    lemma_doubling_reaches(1, capacity);
}

proof fn lemma_doubling_reaches(from: nat, wanted: nat)
    requires
        from >= 1,
    ensures
        doubled_to(from, wanted) >= wanted,
        doubled_to(from, wanted) >= from,
        from < wanted ==> doubled_to(from, wanted) < 2 * wanted,
    decreases 2 * wanted - from,
{
    if from < wanted {
        lemma_doubling_reaches(2 * from, wanted);
    }
}

/// Which slot the reading with sequence number `seq` goes to.
pub open spec fn slot_of(seq: u64, slots: nat) -> int {
    seq as int % slots as int
}

/// The sequence number `by` readings after `position`. Sequence numbers wrap around.
pub open spec fn advanced(position: u64, by: nat) -> u64 {
    ((position + by) % 0x1_0000_0000_0000_0000) as u64
}

/// The words in the slots after `entries` have been published one by one, starting with sequence
/// number `position`.
pub open spec fn words_after(
    words: Seq<u64>,
    position: u64,
    entries: Seq<TelemetryEntry>,
) -> Seq<u64>
    decreases entries.len(),
{
    if entries.len() == 0 {
        words
    } else {
        words_after(words, position, entries.drop_last()).update(
            slot_of(advanced(position, (entries.len() - 1) as nat), words.len()),
            packed(entries.last()),
        )
    }
}

/// The ring keeps the newest readings: after any number of them, the last ones, as many as there
/// are slots, are each still in their slot.
pub proof fn newest_readings_survive(words: Seq<u64>, position: u64, entries: Seq<TelemetryEntry>)
    requires
        words.len() >= 1,
        position + entries.len() <= u64::MAX,
    ensures
        words_after(words, position, entries).len() == words.len(),
        forall|k: int|
            #![trigger entries[k]]
            0 <= k < entries.len() && entries.len() - words.len() <= k ==> unpacked(
                words_after(words, position, entries)[slot_of(
                    (position + k) as u64,
                    words.len(),
                )],
            ) == entries[k],
    decreases entries.len(),
{
    if entries.len() > 0 {
        let before = entries.drop_last();
        let last = entries.len() - 1;
        newest_readings_survive(words, position, before);
        assert(advanced(position, last as nat) == position + last);
        assert forall|k: int|
            #![trigger entries[k]]
            0 <= k < entries.len() && entries.len() - words.len() <= k implies unpacked(
            words_after(words, position, entries)[slot_of((position + k) as u64, words.len())],
        ) == entries[k] by {
            packing_round_trips(entries[k]);
            if k < last {
                assert(before[k] == entries[k]);
                lemma_slots_differ((position + k) as nat, (position + last) as nat, words.len());
            }
        }
    }
}

proof fn lemma_slots_differ(a: nat, b: nat, slots: nat)
    requires
        slots >= 1,
        a < b < a + slots,
    ensures
        a % slots != b % slots,
        0 <= a % slots < slots,
        0 <= b % slots < slots,
{
    lemma_fundamental_div_mod(a as int, slots as int);
    lemma_fundamental_div_mod(b as int, slots as int);
    if a % slots == b % slots {
        let p = a as int / slots as int;
        let q = b as int / slots as int;
        assert(q > p ==> slots * q - slots * p >= slots) by (nonlinear_arith)
            requires
                slots >= 1,
        ;
        assert(q <= p ==> slots * q - slots * p <= 0) by (nonlinear_arith)
            requires
                slots >= 1,
        ;
    }
}

struct Inner {
    slots: Vec<AtomicU64>,
    /// Total number of readings ever written. Only the producer stores to it.
    write_seq: AtomicU64,
}

/// The audio thread's write end. There is one per ring: it cannot be cloned.
pub struct TelemetryProducer {
    inner: Arc<Inner>,
    /// The producer's own copy of the write sequence.
    seq: u64,
    words: Ghost<Seq<u64>>,
    announced: Ghost<u64>,
}

/// A read end. Clones track their own position, so readers never interfere.
///
/// What it has loaded is kept for the contracts alone: the write sequences, and the slots' words.
pub struct TelemetryReader {
    inner: Arc<Inner>,
    cursor: u64,
    heard: Ghost<Seq<u64>>,
    loads: Ghost<Seq<(int, u64)>>,
}

impl Clone for TelemetryReader {
    fn clone(&self) -> (reader: TelemetryReader)
        ensures
            reader == *self,
    {
        TelemetryReader {
            inner: Arc::clone(&self.inner),
            cursor: self.cursor,
            heard: Ghost(self.heard@),
            loads: Ghost(self.loads@),
        }
    }
}

/// What one [`TelemetryReader::drain`] call did.
#[derive(Clone, Copy, Debug, PartialEq, Eq, Structural)]
pub struct TelemetryDrain {
    /// How many readings were copied out.
    pub read: usize,
    /// How many readings were overwritten before this reader reached them.
    pub missed: u64,
}

/// What a drain does, once it has read the write sequence.
#[derive(Clone, Copy, Debug, PartialEq, Eq, Structural)]
pub struct DrainPlan {
    /// The sequence number of the first reading that is copied.
    pub start: u64,
    /// How many readings are copied.
    pub read: usize,
    /// How many readings were overwritten before this reader reached them.
    pub missed: u64,
}

impl DrainPlan {
    /// The plan for a reader at `cursor`, with `end` readings written so far to a ring of `slots`
    /// slots, and `room` places to copy to: skip what has been overwritten, then copy what is
    /// there, oldest first.
    pub open spec fn of(cursor: u64, end: u64, slots: nat, room: nat) -> DrainPlan {
        let oldest = if end >= slots {
            end - slots
        } else {
            0
        };
        let start = if cursor >= oldest {
            cursor as int
        } else {
            oldest
        };
        let available = if start < end {
            end - start
        } else {
            0
        };
        DrainPlan {
            start: start as u64,
            read: (if available <= room {
                available
            } else {
                room as int
            }) as usize,
            missed: (start - cursor) as u64,
        }
    }

    /// Computes the plan.
    pub fn compute(cursor: u64, end: u64, slots: usize, room: usize) -> (plan: DrainPlan)
        ensures
            plan == DrainPlan::of(cursor, end, slots as nat, room as nat),
            plan.start >= cursor,
            plan.read <= room,
            plan.start + plan.read <= u64::MAX,
    {
        let slots64: u64 = slots as u64;
        let oldest: u64 = if end >= slots64 {
            end - slots64
        } else {
            0
        };
        let start: u64 = if cursor >= oldest {
            cursor
        } else {
            oldest
        };
        let available: u64 = if start < end {
            end - start
        } else {
            0
        };
        let read: usize = if available <= room as u64 {
            available as usize
        } else {
            room
        };
        DrainPlan { start, read, missed: start - cursor }
    }
}

/// A reader that keeps up misses nothing and copies exactly what is new; one that was lapped is
/// told how far, and resumes at the oldest reading the ring still holds.
pub proof fn drains_skip_only_what_was_overwritten(cursor: u64, end: u64, slots: nat, room: nat)
    requires
        cursor <= end,
        slots <= usize::MAX,
        room <= usize::MAX,
    ensures
        end - cursor <= slots ==> DrainPlan::of(cursor, end, slots, room).missed == 0
            && DrainPlan::of(cursor, end, slots, room).start == cursor,
        end - cursor > slots ==> DrainPlan::of(cursor, end, slots, room).missed == end - cursor
            - slots && DrainPlan::of(cursor, end, slots, room).start == end - slots,
        end - DrainPlan::of(cursor, end, slots, room).start <= slots,
        room >= slots ==> DrainPlan::of(cursor, end, slots, room).start + DrainPlan::of(
            cursor,
            end,
            slots,
            room,
        ).read == end,
{
}

/// Allocates a ring for `capacity` readings, rounded up to a power of two, and splits it into its
/// two ends.
pub fn telemetry_ring(capacity: usize) -> (ends: (TelemetryProducer, TelemetryReader))
    requires
        8 * slots_for(capacity as nat) <= isize::MAX,
    ensures
        ends.0.wf(),
        ends.0.slots() == slots_for(capacity as nat),
        ends.0.position() == 0,
        ends.0.words() == Seq::new(slots_for(capacity as nat), |i: int| 0u64),
        ends.0.shares(ends.1),
        ends.1.wf(),
        ends.1.slots() == slots_for(capacity as nat),
        ends.1.position() == 0,
        ends.1.heard() == Seq::<u64>::empty(),
        ends.1.loads() == Seq::<(int, u64)>::empty(),
{
    let mut size: usize = 1;
    proof {
        lemma_doubling_reaches(1, capacity as nat);
    }
    while size < capacity
        invariant
            size >= 1,
            8 * slots_for(capacity as nat) <= isize::MAX,
            doubled_to(size as nat, capacity as nat) == slots_for(capacity as nat),
            size <= slots_for(capacity as nat),
        decreases 2 * capacity - size,
    {
        proof {
            lemma_doubling_reaches(2 * size as nat, capacity as nat);
        }
        size = size * 2;
    }
    let mut slots: Vec<AtomicU64> = Vec::with_capacity(size);
    let mut filled: usize = 0;
    while filled < size
        invariant
            filled <= size,
            slots@.len() == filled,
        decreases size - filled,
    {
        slots.push(AtomicU64::new(0));
        filled = filled + 1;
    }
    let inner: Arc<Inner> = Arc::new(Inner { slots, write_seq: AtomicU64::new(0) });
    let producer = TelemetryProducer {
        inner: Arc::clone(&inner),
        seq: 0,
        words: Ghost(Seq::new(size as nat, |i: int| 0u64)),
        announced: Ghost(0),
    };
    let reader = TelemetryReader {
        inner,
        cursor: 0,
        heard: Ghost(Seq::empty()),
        loads: Ghost(Seq::empty()),
    };
    (producer, reader)
}

impl TelemetryProducer {
    /// The ring has slots, a word is known for each of them, and readers are told of every reading.
    pub closed spec fn wf(&self) -> bool {
        &&& self.inner.slots@.len() >= 1
        &&& self.words@.len() == self.inner.slots@.len()
        &&& self.announced@ == self.seq
    }

    /// Whether a reader reads the ring that this end writes.
    pub closed spec fn shares(&self, reader: TelemetryReader) -> bool {
        self.inner == reader.inner
    }

    /// Whether `after` writes the same ring: every reader of the one is a reader of the other.
    pub open spec fn same_readers(&self, after: TelemetryProducer) -> bool {
        forall|reader: TelemetryReader| #[trigger] after.shares(reader) == self.shares(reader)
    }

    /// How many slots the ring has.
    pub closed spec fn slots(&self) -> nat {
        self.inner.slots@.len()
    }

    /// A word is known for each slot, and there is at least one.
    pub proof fn one_word_per_slot(&self)
        requires
            self.wf(),
        ensures
            self.words().len() == self.slots(),
            self.slots() >= 1,
    {
    }

    /// The word this end stored last in each slot; zero where it stored none yet.
    pub closed spec fn words(&self) -> Seq<u64> {
        self.words@
    }

    /// How many readings have been published, as the 64-bit sequence number that readers see.
    pub closed spec fn position(&self) -> u64 {
        self.seq
    }

    /// Publishes one reading, overwriting the oldest if the ring is full.
    pub fn push(&mut self, entry: TelemetryEntry)
        requires
            old(self).wf(),
        ensures
            final(self).wf(),
            final(self).slots() == old(self).slots(),
            old(self).same_readers(*final(self)),
            final(self).words() == old(self).words().update(
                slot_of(old(self).position(), old(self).slots()),
                packed(entry),
            ),
            final(self).position() == advanced(old(self).position(), 1),
    {
        let index: usize = (self.seq % self.inner.slots.len() as u64) as usize;
        store_word(self, index, pack(entry));
        self.seq = if self.seq == u64::MAX {
            0
        } else {
            self.seq + 1
        };
        announce(self);
    }

    /// The write sequence readers are told.
    pub closed spec fn announced(&self) -> u64 {
        self.announced@
    }
}

/// Stores the write sequence, with the ordering that makes every word stored before it visible to a
/// reader that loads it. What is kept for the contracts is a log of this call. Nothing ties the log
/// to the memory: the specification of an atomic store says nothing of the value.
fn announce(producer: &mut TelemetryProducer)
    ensures
        final(producer).slots() == old(producer).slots(),
        final(producer).inner == old(producer).inner,
        final(producer).position() == old(producer).position(),
        final(producer).words() == old(producer).words(),
        final(producer).announced() == old(producer).position(),
{
    producer.inner.write_seq.store(producer.seq, Ordering::Release);
    producer.announced = Ghost(producer.seq);
}

/// The words after `word` has been stored in slot `index`.
pub open spec fn with_word(words: Seq<u64>, index: usize, word: u64) -> Seq<u64> {
    words.update(index as int, word)
}

/// Stores a word in one slot. What is kept for the contracts is a log of these calls, as the word
/// that each slot was given last. Nothing ties the log to the memory: the specification of an
/// atomic store says nothing of the value.
fn store_word(producer: &mut TelemetryProducer, index: usize, word: u64)
    requires
        index < old(producer).slots(),
    ensures
        final(producer).slots() == old(producer).slots(),
        final(producer).inner == old(producer).inner,
        final(producer).position() == old(producer).position(),
        final(producer).announced() == old(producer).announced(),
        final(producer).words() == with_word(old(producer).words(), index, word),
{
    producer.inner.slots[index].store(word, Ordering::Relaxed);
    producer.words = Ghost(with_word(producer.words@, index, word));
}

impl TelemetryReader {
    /// The ring has slots.
    pub closed spec fn wf(&self) -> bool {
        self.inner.slots@.len() >= 1
    }

    /// How many slots the ring has.
    pub closed spec fn slots(&self) -> nat {
        self.inner.slots@.len()
    }

    /// Whether `after` reads the same ring: whatever writes for the one writes for the other.
    pub open spec fn same_ring(&self, after: TelemetryReader) -> bool {
        forall|writer: TelemetryProducer| #[trigger]
            writer.shares(after) == writer.shares(*self)
    }

    /// The sequence number of the first reading this reader has not dealt with.
    pub closed spec fn position(&self) -> u64 {
        self.cursor
    }

    /// The write sequences this reader has loaded, in order.
    pub closed spec fn heard(&self) -> Seq<u64> {
        self.heard@
    }

    /// The slots this reader has loaded, in order, each with the word it held.
    pub closed spec fn loads(&self) -> Seq<(int, u64)> {
        self.loads@
    }

    /// What a drain into `room` places comes to: the write sequence is loaded once, the slots that
    /// the plan for it names are loaded in order, and `out` begins with their words, unpacked.
    pub open spec fn drains_to(
        &self,
        after: TelemetryReader,
        room: nat,
        drain: TelemetryDrain,
        out: Seq<TelemetryEntry>,
    ) -> bool {
        let end = after.heard().last();
        let plan = DrainPlan::of(self.position(), end, self.slots(), room);
        &&& self.same_ring(after)
        &&& after.slots() == self.slots()
        &&& after.heard() == self.heard().push(end)
        &&& after.position() == plan.start + plan.read
        &&& drain == (TelemetryDrain { read: plan.read, missed: plan.missed })
        &&& after.loads().len() == self.loads().len() + plan.read
        &&& self.loads().is_prefix_of(after.loads())
        &&& forall|i: int|
            0 <= i < plan.read ==> copied_from(
                after.loads()[self.loads().len() + i],
                slot_of((plan.start + i) as u64, self.slots()),
                #[trigger] out[i],
            )
    }

    /// Copies readings into `out`, oldest first, as many as there are and as `out` has room for,
    /// and advances past them.
    ///
    /// How many readings have been written is up to the producer, and so is what the slots hold by
    /// the time they are loaded. Whatever it is, the drain follows [`DrainPlan`].
    pub fn drain(&mut self, out: &mut [TelemetryEntry]) -> (drain: TelemetryDrain)
        requires
            old(self).wf(),
        ensures
            final(self).wf(),
            final(out)@.len() == old(out)@.len(),
            drain.read <= old(out)@.len(),
            old(self).drains_to(*final(self), old(out)@.len(), drain, final(out)@),
            forall|i: int|
                drain.read <= i < old(out)@.len() ==> #[trigger] final(out)@[i] == old(out)@[i],
    {
        let ghost before = self.loads@;
        let end: u64 = load_position(self);
        let slots: usize = self.inner.slots.len();
        let plan: DrainPlan = DrainPlan::compute(self.cursor, end, slots, out.len());
        let mut read: usize = 0;
        while read < plan.read
            invariant
                read <= plan.read <= out@.len(),
                out@.len() == old(out)@.len(),
                slots == self.inner.slots@.len(),
                slots >= 1,
                slots == old(self).slots(),
                self.inner == old(self).inner,
                plan.start + plan.read <= u64::MAX,
                before == old(self).loads(),
                self.cursor == old(self).cursor,
                self.heard() == old(self).heard().push(end),
                self.loads().len() == before.len() + read,
                before.is_prefix_of(self.loads()),
                forall|i: int|
                    0 <= i < read ==> copied_from(
                        self.loads()[before.len() + i],
                        slot_of((plan.start + i) as u64, slots as nat),
                        #[trigger] out@[i],
                    ),
                forall|i: int| read <= i < out@.len() ==> #[trigger] out@[i] == old(out)@[i],
            decreases plan.read - read,
        {
            let index: usize = ((plan.start + read as u64) % slots as u64) as usize;
            assert(index == slot_of((plan.start + read) as u64, slots as nat));
            let ghost loaded = self.loads();
            let ghost copied = out@;
            let word: u64 = load_word(self, index);
            out[read] = unpack(word);
            assert forall|i: int| 0 <= i <= read implies copied_from(
                self.loads()[before.len() + i],
                slot_of((plan.start + i) as u64, slots as nat),
                #[trigger] out@[i],
            ) by {
                if i < read {
                    assert(copied[i] == out@[i]);
                    assert(self.loads()[before.len() + i] == loaded[before.len() + i]);
                }
            }
            read = read + 1;
        }
        self.cursor = plan.start + plan.read as u64;
        assert(self.heard().last() == end);
        TelemetryDrain { read: plan.read, missed: plan.missed }
    }
}

/// Loads the write sequence. How many readings the producer has announced by then is a question of
/// timing, so nothing is said of the result but that it is what was heard.
fn load_position(reader: &mut TelemetryReader) -> (end: u64)
    ensures
        final(reader).inner == old(reader).inner,
        final(reader).slots() == old(reader).slots(),
        final(reader).position() == old(reader).position(),
        final(reader).heard() == old(reader).heard().push(end),
        final(reader).loads() == old(reader).loads(),
{
    let end: u64 = reader.inner.write_seq.load(Ordering::Acquire);
    reader.heard = Ghost(reader.heard@.push(end));
    end
}

/// Loads one slot. Which word the producer has stored there by then is a question of timing, so
/// nothing is said of the result but that it is what was loaded from there.
fn load_word(reader: &mut TelemetryReader, index: usize) -> (word: u64)
    requires
        index < old(reader).slots(),
    ensures
        final(reader).inner == old(reader).inner,
        final(reader).slots() == old(reader).slots(),
        final(reader).position() == old(reader).position(),
        final(reader).heard() == old(reader).heard(),
        final(reader).loads() == logged(old(reader).loads(), index, word),
{
    let word: u64 = reader.inner.slots[index].load(Ordering::Acquire);
    reader.loads = Ghost(logged(reader.loads@, index, word));
    word
}

/// Whether `entry` is what was loaded from this slot.
pub open spec fn copied_from(load: (int, u64), slot: int, entry: TelemetryEntry) -> bool {
    load.0 == slot && entry == unpacked(load.1)
}

/// The loads after one more.
pub open spec fn logged(loads: Seq<(int, u64)>, index: usize, word: u64) -> Seq<(int, u64)> {
    loads.push((index as int, word))
}

/// A reader that finds every slot as the producer left it reads back what was published since it
/// last looked, in order, as far as it has room: all of it if it has kept up, and otherwise the
/// newest, as many as there are slots, and it is told how many it has missed.
pub proof fn a_drain_reads_back_what_was_published(
    words: Seq<u64>,
    position: u64,
    entries: Seq<TelemetryEntry>,
    reader: TelemetryReader,
    after: TelemetryReader,
    room: nat,
    drain: TelemetryDrain,
    out: Seq<TelemetryEntry>,
)
    requires
        words.len() == reader.slots(),
        1 <= words.len() <= usize::MAX,
        room <= usize::MAX,
        position + entries.len() <= u64::MAX,
        reader.position() == position,
        reader.drains_to(after, room, drain, out),
        after.heard().last() == advanced(position, entries.len()),
        forall|i: int|
            reader.loads().len() <= i < after.loads().len() ==> (#[trigger] after.loads()[i]).1
                == words_after(words, position, entries)[after.loads()[i].0],
    ensures
        drain.missed == entries.len() - newest(entries, words.len()).len(),
        room >= newest(entries, words.len()).len() ==> drain.read == newest(
            entries,
            words.len(),
        ).len(),
        room < newest(entries, words.len()).len() ==> drain.read == room,
        forall|i: int|
            0 <= i < drain.read ==> #[trigger] out[i] == newest(entries, words.len())[i],
{
    newest_readings_survive(words, position, entries);
    let first = reader.loads().len();
    let skipped = drain.missed as int;
    assert(advanced(position, entries.len()) == position + entries.len());
    assert forall|i: int| 0 <= i < drain.read implies #[trigger] out[i] == newest(
        entries,
        words.len(),
    )[i] by {
        let load = after.loads()[first + i];
        assert(load.1 == words_after(words, position, entries)[load.0]);
        assert(entries[skipped + i] == newest(entries, words.len())[i]);
    }
}

/// Whether a reader may have drained its ring time and again, into `rooms` places each, with
/// `drains` the results, and be left as `after`.
pub open spec fn drains_all(
    reader: TelemetryReader,
    rooms: Seq<nat>,
    drains: Seq<TelemetryDrain>,
    after: TelemetryReader,
) -> bool
    decreases rooms.len(),
{
    &&& drains.len() == rooms.len()
    &&& if rooms.len() == 0 {
        after == reader
    } else {
        exists|between: TelemetryReader, out: Seq<TelemetryEntry>|
            {
                &&& drains_all(reader, rooms.drop_last(), drains.drop_last(), between)
                &&& #[trigger] between.drains_to(after, rooms.last(), drains.last(), out)
            }
    }
}

/// How many readings a series of drains has dealt with, read and missed together.
pub open spec fn dealt_with(drains: Seq<TelemetryDrain>) -> nat
    decreases drains.len(),
{
    if drains.len() == 0 {
        0
    } else {
        dealt_with(drains.drop_last()) + drains.last().read as nat + drains.last().missed as nat
    }
}

/// Over any number of drains every reading is dealt with once: what was read and what was missed
/// add up to how far the reader has come. Each reader's own drains account for its own position, so
/// this holds of any number of readers of one ring.
pub proof fn every_reading_is_read_or_missed(
    reader: TelemetryReader,
    rooms: Seq<nat>,
    drains: Seq<TelemetryDrain>,
    after: TelemetryReader,
)
    requires
        reader.slots() <= usize::MAX,
        forall|k: int| 0 <= k < rooms.len() ==> #[trigger] rooms[k] <= usize::MAX,
        drains_all(reader, rooms, drains, after),
    ensures
        after.slots() == reader.slots(),
        reader.position() + dealt_with(drains) == after.position(),
    decreases rooms.len(),
{
    if rooms.len() > 0 {
        let (between, out) = choose|between: TelemetryReader, out: Seq<TelemetryEntry>|
            {
                &&& drains_all(reader, rooms.drop_last(), drains.drop_last(), between)
                &&& #[trigger] between.drains_to(after, rooms.last(), drains.last(), out)
            };
        assert forall|k: int| 0 <= k < rooms.len() - 1 implies #[trigger] rooms.drop_last()[k]
            <= usize::MAX by {
            assert(rooms[k] <= usize::MAX);
        }
        assert(rooms[rooms.len() - 1] <= usize::MAX);
        every_reading_is_read_or_missed(reader, rooms.drop_last(), drains.drop_last(), between);
    }
}

} // verus!
