//! Demo driver: every 30th tick it sends a pulse to `tock`, every 10th it
//! publishes an echo to itself and counts the echoes it receives back.
//!
//! The subsystem decides; the composition root publishes on the bus and
//! reports back what happened.
use vstd::prelude::*;

verus! {

pub const TOPIC_TICK_PULSE: u16 = 0;

pub const TOPIC_ECHO: u16 = 1;

/// Ticks between pulses to `tock`.
pub const PULSE_PERIOD: u64 = 30;

/// Ticks between self-echoes.
pub const ECHO_PERIOD: u64 = 10;

#[derive(Clone, Copy, Debug, Default, PartialEq, Eq, Structural)]
pub struct HelloCounters {
    pub ticks: u64,
    pub pulses_sent: u64,
    pub echos_received: u64,
}

impl HelloCounters {
    /// `(ticks, pulses_sent, echos_received)`.
    pub fn summary(&self) -> (r: (u64, u64, u64))
        ensures
            r == (self.ticks, self.pulses_sent, self.echos_received),
    {
        (self.ticks, self.pulses_sent, self.echos_received)
    }
}

/// What one tick asks the bus to do.
#[derive(Clone, Copy, Debug, PartialEq, Eq, Structural)]
pub struct HelloTick {
    /// This tick's number (the first tick is 1).
    pub tick: u64,
    /// Send a pulse carrying `tick` to this subscriber.
    pub pulse_to: Option<u32>,
    /// Publish an echo carrying `tick` to itself.
    pub echo: bool,
}

pub struct Hello {
    counters: HelloCounters,
    tock: Option<u32>,
}

impl Hello {
    pub closed spec fn spec_counters(&self) -> HelloCounters {
        self.counters
    }

    pub closed spec fn spec_tock(&self) -> Option<u32> {
        self.tock
    }

    pub fn new(counters: HelloCounters) -> (r: Self)
        ensures
            r.spec_counters() == counters,
            r.spec_tock() is None,
    {
        Hello { counters, tock: None }
    }

    pub fn name(&self) -> (r: &'static str)
        ensures
            r@ == "hello"@,
    {
        "hello"
    }

    /// Hello depends on no other subsystem.
    pub fn dependencies(&self) -> (r: Vec<&'static str>)
        ensures
            r@.len() == 0,
    {
        Vec::new()
    }

    /// Records the bus address of `tock`, resolved once at start-up.
    pub fn init(&mut self, tock: Option<u32>)
        ensures
            final(self).spec_tock() == tock,
            final(self).spec_counters() == old(self).spec_counters(),
    {
        self.tock = tock;
    }

    /// Counts the tick and says what to publish: a pulse to `tock` on
    /// every 30th tick (when `tock` is known), an echo on every 10th.
    pub fn tick(&mut self) -> (r: HelloTick)
        requires
            old(self).spec_counters().ticks < u64::MAX,
        ensures
            r.tick == old(self).spec_counters().ticks + 1,
            final(self).spec_counters() == (HelloCounters {
                ticks: r.tick,
                ..old(self).spec_counters()
            }),
            final(self).spec_tock() == old(self).spec_tock(),
            r.pulse_to == if r.tick % PULSE_PERIOD == 0 {
                old(self).spec_tock()
            } else {
                None::<u32>
            },
            r.echo == (r.tick % ECHO_PERIOD == 0),
    {
        let tick = self.counters.ticks + 1;
        self.counters.ticks = tick;
        HelloTick {
            tick,
            pulse_to: if tick % PULSE_PERIOD == 0 {
                self.tock
            } else {
                None
            },
            echo: tick % ECHO_PERIOD == 0,
        }
    }

    /// The bus accepted the pulse.
    pub fn pulse_sent(&mut self)
        ensures
            final(self).spec_counters() == (HelloCounters {
                pulses_sent: old(self).spec_counters().pulses_sent.wrapping_add(1),
                ..old(self).spec_counters()
            }),
            final(self).spec_tock() == old(self).spec_tock(),
    {
        self.counters.pulses_sent = self.counters.pulses_sent.wrapping_add(1);
    }

    /// The echo was published; `received` holds the topics of the messages
    /// then in the inbox, and each echo among them is counted.
    pub fn echo_delivered(&mut self, received: &[u16])
        ensures
            final(self).spec_counters().echos_received == (old(self).spec_counters().echos_received
                + received@.filter(|t: u16| t == TOPIC_ECHO).len()) % 0x1_0000_0000_0000_0000,
            final(self).spec_counters().ticks == old(self).spec_counters().ticks,
            final(self).spec_counters().pulses_sent == old(self).spec_counters().pulses_sent,
            final(self).spec_tock() == old(self).spec_tock(),
    {
        let mut i: usize = 0;
        while i < received.len()
            invariant
                i <= received@.len(),
                self.tock == old(self).tock,
                self.counters.ticks == old(self).counters.ticks,
                self.counters.pulses_sent == old(self).counters.pulses_sent,
                self.counters.echos_received == (old(self).counters.echos_received + received@.take(
                    i as int,
                ).filter(|t: u16| t == TOPIC_ECHO).len()) % 0x1_0000_0000_0000_0000,
            decreases received.len() - i,
        {
            proof {
                let t = received@.take(i as int + 1);
                assert(t.drop_last() =~= received@.take(i as int));
                reveal(Seq::filter);
            }
            if received[i] == TOPIC_ECHO {
                self.counters.echos_received = self.counters.echos_received.wrapping_add(1);
            }
            i = i + 1;
        }
        assert(received@.take(received@.len() as int) =~= received@);
    }

    pub fn counters(&self) -> (r: HelloCounters)
        ensures
            r == self.spec_counters(),
    {
        self.counters
    }
}

} // verus!
