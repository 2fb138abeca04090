//! Deterministic audio voice scheduler: simulation-time voice state only.
use vstd::prelude::*;

verus! {

#[derive(Clone, Copy, Debug, PartialEq, Eq)]
pub struct Voice {
    pub phase: u64,
    pub phase_step: u64,
    pub gain_milli: u16,
    pub active: bool,
}

#[derive(Clone, Copy, Debug, PartialEq, Eq, Structural)]
pub enum AudioError {
    AllocationFailed,
}

/// `a * b`, or `u64::MAX` when the product does not fit.
pub open spec fn saturating_mul_u64(a: u64, b: u64) -> u64 {
    if a * b > u64::MAX {
        u64::MAX
    } else {
        (a * b) as u64
    }
}

/// `a + b` modulo 2^64.
pub open spec fn wrapping_add_u64(a: u64, b: u64) -> u64 {
    if a + b > u64::MAX {
        (a + b - (u64::MAX + 1)) as u64
    } else {
        (a + b) as u64
    }
}

/// An active voice advances its phase by `phase_step * dt_ns` (saturating),
/// wrapping around; a stopped voice keeps its phase.
pub open spec fn spec_advance_voice(v: Voice, dt_ns: u64) -> Voice {
    if v.active {
        Voice { phase: wrapping_add_u64(v.phase, saturating_mul_u64(v.phase_step, dt_ns)), ..v }
    } else {
        v
    }
}

fn saturating_mul(a: u64, b: u64) -> (r: u64)
    ensures
        r == saturating_mul_u64(a, b),
{
    match a.checked_mul(b) {
        Some(v) => v,
        None => u64::MAX,
    }
}

pub struct AudioSubsystem {
    voices: Vec<Voice>,
    capacity: usize,
}

impl AudioSubsystem {
    pub closed spec fn wf(&self) -> bool {
        self.voices@.len() <= self.capacity
    }

    pub closed spec fn spec_voices(&self) -> Seq<Voice> {
        self.voices@
    }

    pub closed spec fn spec_capacity(&self) -> nat {
        self.capacity as nat
    }

    pub fn with_capacity(capacity: usize) -> (r: Self)
        ensures
            r.wf(),
            r.spec_voices() == Seq::<Voice>::empty(),
            r.spec_capacity() == capacity,
    {
        Self { voices: Vec::with_capacity(capacity), capacity }
    }

    pub fn try_with_capacity(capacity: usize) -> (r: Result<Self, AudioError>)
        ensures
            r matches Ok(a) ==> a.wf() && a.spec_voices() == Seq::<Voice>::empty()
                && a.spec_capacity() == capacity,
            r matches Err(e) ==> e == AudioError::AllocationFailed,
    {
        let mut voices: Vec<Voice> = Vec::new();
        if voices.try_reserve(capacity).is_err() {
            return Err(AudioError::AllocationFailed);
        }
        Ok(Self { voices, capacity })
    }

    /// Starts an active voice at phase zero and returns its index, or `None`
    /// when every slot is taken.
    pub fn add_voice(&mut self, phase_step: u64, gain_milli: u16) -> (r: Option<usize>)
        requires
            old(self).wf(),
        ensures
            final(self).wf(),
            final(self).spec_capacity() == old(self).spec_capacity(),
            old(self).spec_voices().len() == old(self).spec_capacity() ==> r is None
                && final(self).spec_voices() == old(self).spec_voices(),
            old(self).spec_voices().len() < old(self).spec_capacity() ==> r == Some(
                old(self).spec_voices().len() as usize,
            ) && final(self).spec_voices() == old(self).spec_voices().push(
                Voice { phase: 0, phase_step, gain_milli, active: true },
            ),
    {
        if self.voices.len() == self.capacity {
            return None;
        }
        self.voices.push(Voice { phase: 0, phase_step, gain_milli, active: true });
        Some(self.voices.len() - 1)
    }

    /// Stops the voice at `index`; `false` when there is no such voice.
    pub fn stop_voice(&mut self, index: usize) -> (r: bool)
        requires
            old(self).wf(),
        ensures
            final(self).wf(),
            final(self).spec_capacity() == old(self).spec_capacity(),
            r == (index < old(self).spec_voices().len()),
            r ==> final(self).spec_voices() == old(self).spec_voices().update(
                index as int,
                Voice { active: false, ..old(self).spec_voices()[index as int] },
            ),
            !r ==> final(self).spec_voices() == old(self).spec_voices(),
    {
        if index >= self.voices.len() {
            return false;
        }
        let mut voice = self.voices[index];
        voice.active = false;
        self.voices.set(index, voice);
        true
    }

    pub fn voices(&self) -> (r: &[Voice])
        ensures
            r@ == self.spec_voices(),
    {
        self.voices.as_slice()
    }

    /// Advances every active voice by `dt_ns` nanoseconds.
    pub fn advance(&mut self, dt_ns: u64)
        requires
            old(self).wf(),
        ensures
            final(self).wf(),
            final(self).spec_capacity() == old(self).spec_capacity(),
            final(self).spec_voices() == old(self).spec_voices().map_values(
                |v: Voice| spec_advance_voice(v, dt_ns),
            ),
    {
        let mut i: usize = 0;
        while i < self.voices.len()
            invariant
                i <= self.voices@.len(),
                self.voices@.len() == old(self).voices@.len(),
                self.capacity == old(self).capacity,
                forall|j: int|
                    0 <= j < i ==> #[trigger] self.voices@[j] == spec_advance_voice(
                        old(self).voices@[j],
                        dt_ns,
                    ),
                forall|j: int| i <= j < self.voices@.len() ==> self.voices@[j] == old(self).voices@[j],
            decreases self.voices.len() - i,
        {
            let mut voice = self.voices[i];
            if voice.active {
                voice.phase = voice.phase.wrapping_add(saturating_mul(voice.phase_step, dt_ns));
            }
            self.voices.set(i, voice);
            i = i + 1;
        }
        proof {
            assert(self.voices@ =~= old(self).voices@.map_values(
                |v: Voice| spec_advance_voice(v, dt_ns),
            ));
        }
    }

    /// One fixed step of the audio clock.
    pub fn tick(&mut self, dt_ns: u64)
        requires
            old(self).wf(),
        ensures
            final(self).wf(),
            final(self).spec_capacity() == old(self).spec_capacity(),
            final(self).spec_voices() == old(self).spec_voices().map_values(
                |v: Voice| spec_advance_voice(v, dt_ns),
            ),
    {
        self.advance(dt_ns);
    }
}

impl Default for AudioSubsystem {
    fn default() -> (r: Self)
        ensures
            r.wf(),
            r.spec_voices() == Seq::<Voice>::empty(),
            r.spec_capacity() == 64,
    {
        Self::with_capacity(64)
    }
}

} // verus!
