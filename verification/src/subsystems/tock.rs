//! Demo consumer: counts the tick pulses it receives from `hello` and keeps
//! the highest sequence number seen.
use vstd::prelude::*;

use crate::subsystems::hello::TOPIC_TICK_PULSE;

verus! {

#[derive(Clone, Copy, Debug, Default, PartialEq, Eq, Structural)]
pub struct TockCounters {
    pub pulses: u64,
    pub last_seq: u64,
}

impl TockCounters {
    /// `(pulses, last_seq)`.
    pub fn summary(&self) -> (r: (u64, u64))
        ensures
            r == (self.pulses, self.last_seq),
    {
        (self.pulses, self.last_seq)
    }
}

/// Counters after one message: a pulse is counted (wrapping) and raises the
/// highest sequence seen; any other topic changes nothing.
pub open spec fn spec_consume(c: TockCounters, topic: u16, seq: u64) -> TockCounters {
    if topic != TOPIC_TICK_PULSE {
        c
    } else {
        TockCounters {
            pulses: c.pulses.wrapping_add(1),
            last_seq: if seq > c.last_seq {
                seq
            } else {
                c.last_seq
            },
        }
    }
}

/// Counters after a run of messages, in order.
pub open spec fn spec_consume_all(c: TockCounters, messages: Seq<(u16, u64)>) -> TockCounters
    decreases messages.len(),
{
    if messages.len() == 0 {
        c
    } else {
        spec_consume(spec_consume_all(c, messages.drop_last()), messages.last().0, messages.last().1)
    }
}

pub struct Tock {
    counters: TockCounters,
}

impl Tock {
    pub closed spec fn spec_counters(&self) -> TockCounters {
        self.counters
    }

    pub fn new(counters: TockCounters) -> (r: Self)
        ensures
            r.spec_counters() == counters,
    {
        Tock { counters }
    }

    pub fn name(&self) -> (r: &'static str)
        ensures
            r@ == "tock"@,
    {
        "tock"
    }

    /// Tock ticks after `hello`, whose pulses it consumes.
    pub fn dependencies(&self) -> (r: Vec<&'static str>)
        ensures
            r@.len() == 1,
            r@[0]@ == "hello"@,
    {
        let mut v: Vec<&'static str> = Vec::new();
        v.push("hello");
        v
    }

    /// Takes one message off the inbox.
    pub fn consume(&mut self, topic: u16, seq: u64)
        ensures
            final(self).spec_counters() == spec_consume(old(self).spec_counters(), topic, seq),
    {
        if topic != TOPIC_TICK_PULSE {
            return;
        }
        if seq > self.counters.last_seq {
            self.counters.last_seq = seq;
        }
        self.counters.pulses = self.counters.pulses.wrapping_add(1);
    }

    /// Drains this tick's inbox: `(topic, sequence number)` per message.
    pub fn tick(&mut self, messages: &[(u16, u64)])
        ensures
            final(self).spec_counters() == spec_consume_all(old(self).spec_counters(), messages@),
    {
        let mut i: usize = 0;
        while i < messages.len()
            invariant
                i <= messages@.len(),
                self.counters == spec_consume_all(old(self).counters, messages@.take(i as int)),
            decreases messages.len() - i,
        {
            proof {
                assert(messages@.take(i as int + 1).drop_last() =~= messages@.take(i as int));
            }
            let (topic, seq) = messages[i];
            self.consume(topic, seq);
            i = i + 1;
        }
        assert(messages@.take(messages@.len() as int) =~= messages@);
    }

    pub fn counters(&self) -> (r: TockCounters)
        ensures
            r == self.spec_counters(),
    {
        self.counters
    }
}

} // verus!
