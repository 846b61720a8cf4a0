//! What readings go through on their way out: how they are packed, where they are kept, and what a
//! reader gets to see of them.

use vstd::arithmetic::div_mod::lemma_mod_bound;
use vstd::arithmetic::power2::{lemma_pow2_unfold, pow2};
use vstd::prelude::*;

use crate::telemetry::{newest, TelemetryEntry};
use crate::telemetry_ring::{
    advanced, doubled_to, packed, slot_of, slots_for, unpacked, words_after, DrainPlan,
    TelemetryDrain, TelemetryReader,
};

verus! {

/// What is kept of a list is the end of it: as much as there is room for, all of it if there is
/// room for all, in the same order.
pub proof fn the_end_of_a_list_is_kept<T>(s: Seq<T>, n: nat)
    ensures
        s.len() <= n ==> newest(s, n).len() == s.len(),
        s.len() > n ==> newest(s, n).len() == n,
        forall|i: int|
            0 <= i < newest(s, n).len() ==> #[trigger] newest(s, n)[i] == s[s.len() - newest(
                s,
                n,
            ).len() + i],
{
}

/// A word holds the id above the value, each of them whole.
pub proof fn a_word_is_id_and_value(entry: TelemetryEntry, word: u64)
    ensures
        packed(entry) / 0x1_0000_0000 == entry.id,
        packed(entry) % 0x1_0000_0000 == entry.value.bits,
        unpacked(word).id == word / 0x1_0000_0000,
        unpacked(word).value.bits == word % 0x1_0000_0000,
{
}

/// A ring has a power of two of slots, enough for what was asked for, and half as many would not be
/// enough.
pub proof fn a_ring_has_the_least_power_of_two(capacity: nat) -> (k: nat)
    ensures
        slots_for(capacity) == pow2(k),
        slots_for(capacity) >= capacity,
        k == 0 || pow2((k - 1) as nat) < capacity,
{
    assert(pow2(0) == 1) by {
        reveal(pow2);
        reveal(vstd::arithmetic::power::pow);
    }
    lemma_doubled(0, capacity)
}

proof fn lemma_doubled(j: nat, capacity: nat) -> (k: nat)
    requires
        pow2(j) >= 1,
        j == 0 || pow2((j - 1) as nat) < capacity,
    ensures
        doubled_to(pow2(j), capacity) == pow2(k),
        pow2(k) >= capacity,
        k == 0 || pow2((k - 1) as nat) < capacity,
    decreases 2 * capacity - pow2(j),
{
    if pow2(j) < capacity {
        lemma_pow2_unfold(j + 1);
        lemma_doubled(j + 1, capacity)
    } else {
        j
    }
}

/// The next reading goes to the slot its number falls on, id above value, and no other slot
/// changes; numbers wrap around at the end of 64 bits.
pub proof fn each_reading_goes_to_its_slot(
    words: Seq<u64>,
    position: u64,
    entries: Seq<TelemetryEntry>,
    next: TelemetryEntry,
)
    requires
        words.len() >= 1,
    ensures
        words_after(words, position, Seq::empty()) == words,
        ({
            let before = words_after(words, position, entries);
            let after = words_after(words, position, entries.push(next));
            let number = (position + entries.len()) % 0x1_0000_0000_0000_0000;
            let slot = number % words.len() as int;
            &&& before.len() == words.len()
            &&& after.len() == words.len()
            &&& after[slot] == next.id * 0x1_0000_0000 + next.value.bits
            &&& forall|i: int|
                0 <= i < words.len() && i != slot ==> #[trigger] after[i] == before[i]
        }),
        advanced(position, entries.len()) == (position + entries.len()) % 0x1_0000_0000_0000_0000,
        slot_of(position, words.len()) == position as int % words.len() as int,
{
    lemma_as_many_words(words, position, entries);
    assert(entries.push(next).drop_last() =~= entries);
    let number = (position + entries.len()) % 0x1_0000_0000_0000_0000;
    lemma_mod_bound(number, words.len() as int);
}

proof fn lemma_as_many_words(words: Seq<u64>, position: u64, entries: Seq<TelemetryEntry>)
    requires
        words.len() >= 1,
    ensures
        words_after(words, position, entries).len() == words.len(),
    decreases entries.len(),
{
    if entries.len() > 0 {
        lemma_as_many_words(words, position, entries.drop_last());
        let number = advanced(position, (entries.len() - 1) as nat);
        lemma_mod_bound(number as int, words.len() as int);
    }
}

/// A drain starts where the reader left off, or at the oldest reading that is left if that is
/// later; it copies what has been written since, no more than there is room for; and what it missed
/// is what it had to skip.
pub proof fn a_drain_takes_what_is_left(cursor: u64, end: u64, slots: nat, room: nat)
    requires
        slots <= usize::MAX,
        room <= usize::MAX,
    ensures
        ({
            let plan = DrainPlan::of(cursor, end, slots, room);
            &&& plan.start >= cursor
            &&& plan.start >= end - slots
            &&& plan.start == cursor || plan.start == end - slots
            &&& plan.missed == plan.start - cursor
            &&& plan.read <= room
            &&& end <= plan.start ==> plan.read == 0
            &&& end > plan.start ==> plan.read == room || plan.read == end - plan.start
            &&& end > plan.start ==> plan.start + plan.read <= end
        }),
{
}

/// What a drain copies out is what it loaded, unpacked, in the order of the readings' numbers, and
/// the reader is left behind the last of them.
pub proof fn a_drain_copies_what_it_loads(
    reader: TelemetryReader,
    after: TelemetryReader,
    room: nat,
    drain: TelemetryDrain,
    out: Seq<TelemetryEntry>,
    i: int,
)
    requires
        reader.slots() <= usize::MAX,
        room <= usize::MAX,
        reader.drains_to(after, room, drain, out),
        0 <= i < drain.read,
    ensures
        after.slots() == reader.slots(),
        after.position() == reader.position() + drain.missed + drain.read,
        after.heard().len() == reader.heard().len() + 1,
        after.position() <= after.heard().last(),
        after.position() < after.heard().last() ==> drain.read == room,
        ({
            let load = after.loads()[reader.loads().len() + i];
            &&& load.0 == (reader.position() + drain.missed + i) % reader.slots() as int
            &&& out[i].id == load.1 / 0x1_0000_0000
            &&& out[i].value.bits == load.1 % 0x1_0000_0000
        }),
{
    let end = after.heard().last();
    a_drain_takes_what_is_left(reader.position(), end, reader.slots(), room);
    assert(out[i] == unpacked(after.loads()[reader.loads().len() + i].1));
}

} // verus!
