//! Readings that leave the audio thread, and the fixed-size sink a stage writes them into.
//!
//! Loss is acceptable outbound: a full sink overwrites its oldest reading.

use vstd::prelude::*;

use crate::sample::Sample;

verus! {

/// One numeric reading: which signal (a meter level, a fault count, ...) and its value. No text
/// travels with it; formatting happens off the audio thread.
#[derive(Clone, Copy, Debug, PartialEq, Eq, Structural)]
pub struct TelemetryEntry {
    /// Which signal this reading is.
    pub id: u32,
    /// The reading; its meaning depends on `id`.
    pub value: Sample,
}

/// The last `n` elements of `s`, or all of them if there are no more than `n`.
pub open spec fn newest<T>(s: Seq<T>, n: nat) -> Seq<T> {
    if s.len() <= n {
        s
    } else {
        s.subrange(s.len() - n, s.len() as int)
    }
}

/// Keeping the newest `n` as one goes along is the same as keeping the newest `n` at the end.
pub proof fn newest_of_newest<T>(s: Seq<T>, t: Seq<T>, n: nat)
    ensures
        newest(newest(s, n) + t, n) == newest(s + t, n),
{
    assert(newest(newest(s, n) + t, n) =~= newest(s + t, n));
}

/// A ring over a buffer that the caller owns and this type never grows, so that writing readings
/// cannot allocate. Its view is the readings it holds, oldest first.
pub struct TelemetrySink<'a> {
    /// The readings, in no particular order.
    pub buffer: &'a mut [TelemetryEntry],
    /// How many of them there are.
    pub filled: usize,
    /// Where the next one goes.
    pub next: usize,
}

impl<'a> View for TelemetrySink<'a> {
    type V = Seq<TelemetryEntry>;

    closed spec fn view(&self) -> Seq<TelemetryEntry> {
        Seq::new(self.filled as nat, |i: int| self.buffer@[self.slot(i)])
    }
}

impl<'a> TelemetrySink<'a> {
    /// Where the `i`-th oldest reading lies in the buffer.
    closed spec fn slot(&self, i: int) -> int {
        if self.filled < self.buffer@.len() {
            i
        } else if self.next + i < self.buffer@.len() {
            self.next + i
        } else {
            self.next + i - self.buffer@.len()
        }
    }

    /// How many readings the sink can hold.
    pub open spec fn room(&self) -> nat {
        self.buffer@.len()
    }

    /// The write position is inside the buffer, and trails nothing while the buffer is filling.
    pub closed spec fn wf(&self) -> bool {
        &&& self.filled <= self.buffer@.len()
        &&& self.buffer@.len() == 0 ==> self.next == 0
        &&& self.buffer@.len() > 0 ==> self.next < self.buffer@.len()
        &&& self.filled < self.buffer@.len() ==> self.next == self.filled
    }

    /// A sink never holds more than it has room for.
    pub proof fn holds_no_more_than_its_room(&self)
        requires
            self.wf(),
        ensures
            self@.len() <= self.room(),
    {
    }

    /// Wraps `buffer` as an initially empty ring.
    pub fn new(buffer: &'a mut [TelemetryEntry]) -> (sink: Self)
        ensures
            sink.wf(),
            sink@ == Seq::<TelemetryEntry>::empty(),
            sink.room() == old(buffer)@.len(),
            final(sink.buffer)@ == final(buffer)@,
    {
        let sink = TelemetrySink { buffer, filled: 0, next: 0 };
        assert(sink@ =~= Seq::<TelemetryEntry>::empty());
        sink
    }

    /// Adds a reading, overwriting the oldest if the sink is full. A sink without room discards.
    pub fn push(&mut self, entry: TelemetryEntry)
        requires
            old(self).wf(),
        ensures
            final(self).wf(),
            final(self).room() == old(self).room(),
            final(final(self).buffer)@ == final(old(self).buffer)@,
            final(self)@ == newest(old(self)@.push(entry), old(self).room()),
    {
        let capacity: usize = self.buffer.len();
        if capacity == 0 {
            assert(self@ =~= newest(old(self)@.push(entry), 0));
            return;
        }
        let at: usize = self.next;
        self.buffer[at] = entry;
        self.next = if at + 1 == capacity {
            0
        } else {
            at + 1
        };
        if self.filled < capacity {
            self.filled = self.filled + 1;
        }
        assert(self@ =~= newest(old(self)@.push(entry), old(self).room()));
    }

    /// How many readings the sink holds.
    pub fn len(&self) -> (n: usize)
        requires
            self.wf(),
        ensures
            n == self@.len(),
            n <= self.room(),
    {
        self.filled
    }

    /// Whether nothing has been pushed yet.
    pub fn is_empty(&self) -> (b: bool)
        requires
            self.wf(),
        ensures
            b == (self@.len() == 0),
    {
        self.filled == 0
    }

    /// How many readings the sink can hold.
    pub fn capacity(&self) -> (n: usize)
        ensures
            n == self.room(),
    {
        self.buffer.len()
    }

    /// The `index`-th oldest reading.
    pub fn entry(&self, index: usize) -> (entry: TelemetryEntry)
        requires
            self.wf(),
            index < self@.len(),
        ensures
            entry == self@[index as int],
    {
        let capacity: usize = self.buffer.len();
        if self.filled < capacity {
            return self.buffer[index];
        }
        let to_end: usize = capacity - self.next;
        if index < to_end {
            self.buffer[self.next + index]
        } else {
            self.buffer[index - to_end]
        }
    }

    /// All readings, oldest first.
    pub fn entries(&self) -> (list: Vec<TelemetryEntry>)
        requires
            self.wf(),
        ensures
            list@ == self@,
    {
        let mut list: Vec<TelemetryEntry> = Vec::new();
        let mut i: usize = 0;
        while i < self.filled
            invariant
                self.wf(),
                i <= self.filled,
                self@.len() == self.filled,
                list@ == self@.subrange(0, i as int),
            decreases self.filled - i,
        {
            list.push(self.entry(i));
            i = i + 1;
            assert(self@.subrange(0, i as int) =~= self@.subrange(0, i - 1).push(self@[i - 1]));
        }
        assert(self@.subrange(0, i as int) =~= self@);
        list
    }
}

} // verus!
