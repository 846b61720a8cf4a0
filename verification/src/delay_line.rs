//! The delay that keeps a bypassed signal aligned with the latency the chain reports.

use vstd::prelude::*;

use crate::sample::Sample;
use crate::telemetry::newest;

verus! {

/// One channel's compensation delay: a circular buffer of fixed capacity, fed with every block and
/// read back any number of samples late, up to one less than its capacity.
///
/// Its view is what it remembers: the most recent samples, oldest first, as many as it has room
/// for. A new line remembers zeros.
pub struct DelayLine {
    buf: Vec<Sample>,
    write: usize,
}

impl View for DelayLine {
    type V = Seq<Sample>;

    closed spec fn view(&self) -> Seq<Sample> {
        Seq::new(
            self.buf@.len(),
            |k: int| self.buf@[wrapped(self.write + k, self.buf@.len() as int)],
        )
    }
}

/// `at` folded back into `0..cap`, for an `at` below `2 * cap`.
spec fn wrapped(at: int, cap: int) -> int {
    if at < cap {
        at
    } else {
        at - cap
    }
}

/// The sample `delay` positions before the `i`-th of `input`, where `past` came before `input`.
pub open spec fn delayed(past: Seq<Sample>, input: Seq<Sample>, delay: int, i: int) -> Sample {
    (past + input)[past.len() + i - delay]
}

/// The delay a line of `capacity` samples gives when asked for `delay`: no more than it can reach
/// back.
pub open spec fn reachable(delay: nat, capacity: nat) -> int {
    if delay < capacity {
        delay as int
    } else {
        capacity - 1
    }
}

impl DelayLine {
    /// The write position lies inside a buffer that is not empty.
    pub closed spec fn wf(&self) -> bool {
        self.write < self.buf@.len()
    }

    /// A line with room for `capacity` samples, at least one.
    pub fn new(capacity: usize) -> (line: DelayLine)
        ensures
            line.wf(),
            line@ == Seq::new(
                if capacity == 0 {
                    1
                } else {
                    capacity as nat
                },
                |k: int| Sample::zero(),
            ),
    {
        let room: usize = if capacity == 0 {
            1
        } else {
            capacity
        };
        let line = DelayLine { buf: vec![Sample::zero(); room], write: 0 };
        assert(line@ =~= Seq::new(room as nat, |k: int| Sample::zero()));
        line
    }

    /// Feeds every sample of `input` into the line, in order, and, when `capture` is set, writes
    /// into `dry` what went in `delay` samples earlier. A delay beyond what the line can reach back
    /// is brought down to that, rather than read out of bounds.
    pub fn run(&mut self, input: &[Sample], delay: usize, capture: bool, dry: &mut Vec<Sample>)
        requires
            old(self).wf(),
            input@.len() <= old(dry)@.len(),
        ensures
            final(self).wf(),
            final(self)@ == newest(old(self)@ + input@, old(self)@.len()),
            final(dry)@.len() == old(dry)@.len(),
            !capture ==> final(dry)@ == old(dry)@,
            capture ==> forall|i: int|
                0 <= i < input@.len() ==> #[trigger] final(dry)@[i] == delayed(
                    old(self)@,
                    input@,
                    reachable(delay as nat, old(self)@.len()),
                    i,
                ),
            forall|i: int|
                input@.len() <= i < old(dry)@.len() ==> #[trigger] final(dry)@[i] == old(dry)@[i],
    {
        let cap: usize = self.buf.len();
        let back: usize = if delay < cap {
            delay
        } else {
            cap - 1
        };
        let ghost stream = self@ + input@;
        let mut write: usize = self.write;
        let mut read: usize = if write >= back {
            write - back
        } else {
            cap - (back - write)
        };
        let mut i: usize = 0;
        let n: usize = input.len();
        while i < n
            invariant
                i <= n,
                n == input@.len(),
                cap == self.buf@.len(),
                back < cap,
                back == reachable(delay as nat, cap as nat),
                write < cap,
                read == wrapped(write + cap - back, cap as int) || back == 0,
                read < cap,
                old(self)@.len() == cap,
                stream == old(self)@ + input@,
                forall|k: int|
                    0 <= k < cap ==> self.buf@[#[trigger] wrapped(write + k, cap as int)]
                        == stream[i + k],
                n <= dry@.len(),
                dry@.len() == old(dry)@.len(),
                !capture ==> dry@ == old(dry)@,
                capture ==> forall|j: int|
                    0 <= j < i ==> #[trigger] dry@[j] == delayed(
                        old(self)@,
                        input@,
                        back as int,
                        j,
                    ),
                forall|j: int| i <= j < dry@.len() ==> #[trigger] dry@[j] == old(dry)@[j],
            decreases n - i,
        {
            let sample: Sample = input[i];
            if capture {
                let emitted: Sample = if back > 0 {
                    self.buf[read]
                } else {
                    sample
                };
                proof {
                    if back > 0 {
                        assert(self.buf@[wrapped(write + (cap - back), cap as int)] == stream[i + (
                        cap - back)]);
                    }
                }
                dry.set(i, emitted);
            }
            let ghost before = self.buf@;
            self.buf.set(write, sample);
            let ghost at = write as int;
            write = if write + 1 == cap {
                0
            } else {
                write + 1
            };
            read = if read + 1 == cap {
                0
            } else {
                read + 1
            };
            i = i + 1;
            proof {
                assert forall|k: int| 0 <= k < cap implies self.buf@[#[trigger] wrapped(
                    write + k,
                    cap as int,
                )] == stream[i + k] by {
                    if k < cap - 1 {
                        assert(wrapped(write + k, cap as int) == wrapped(at + (k + 1), cap as int));
                        assert(before[wrapped(at + (k + 1), cap as int)] == stream[(i - 1) + (k
                            + 1)]);
                    }
                }
            }
        }
        self.write = write;
        proof {
            assert(self@ =~= stream.subrange(n as int, n + cap)) by {
                assert forall|k: int| 0 <= k < cap implies self@[k] == stream[n + k] by {
                    assert(self.buf@[wrapped(write + k, cap as int)] == stream[n + k]);
                }
            }
        }
    }
}

/// What comes out of a line that is fed block after block is what went in, late by the delay:
/// dividing the input differently changes nothing.
pub proof fn delay_does_not_depend_on_the_division(
    past: Seq<Sample>,
    first: Seq<Sample>,
    second: Seq<Sample>,
    delay: int,
)
    requires
        past.len() > 0,
        0 <= delay < past.len(),
    ensures
        newest(newest(past + first, past.len()) + second, past.len()) == newest(
            past + (first + second),
            past.len(),
        ),
        forall|i: int|
            0 <= i < first.len() ==> #[trigger] delayed(past, first, delay, i) == delayed(
                past,
                first + second,
                delay,
                i,
            ),
        forall|i: int|
            0 <= i < second.len() ==> #[trigger] delayed(
                newest(past + first, past.len()),
                second,
                delay,
                i,
            ) == delayed(past, first + second, delay, first.len() + i),
{
    crate::telemetry::newest_of_newest(past + first, second, past.len());
    assert((past + first) + second =~= past + (first + second));
}

} // verus!
