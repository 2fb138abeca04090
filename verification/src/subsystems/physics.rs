//! Deterministic fixed-point physics: bodies move by velocity times elapsed
//! time, in whole units per second, with saturating arithmetic.
use vstd::prelude::*;

use crate::subsystems::messages::InputFrame;

verus! {

pub const NANOS_PER_SECOND: i64 = 1_000_000_000;

#[derive(Clone, Copy, Debug, PartialEq, Eq)]
pub struct Body {
    pub position: [i64; 2],
    pub velocity: [i64; 2],
}

#[derive(Clone, Copy, Debug, PartialEq, Eq, Structural)]
pub enum PhysicsError {
    AllocationFailed,
}

/// `v` clamped into the range of `i64`.
pub open spec fn clamp_i64(v: int) -> i64 {
    if v < i64::MIN {
        i64::MIN
    } else if v > i64::MAX {
        i64::MAX
    } else {
        v as i64
    }
}

/// Division rounding toward zero, as Rust's integer division does.
pub open spec fn trunc_div(a: int, b: int) -> int
    recommends
        b > 0,
{
    if a >= 0 {
        a / b
    } else {
        -((-a) / b)
    }
}

pub fn saturating_add_i64(a: i64, b: i64) -> (r: i64)
    ensures
        r == clamp_i64(a + b),
{
    match a.checked_add(b) {
        Some(v) => v,
        None => if b > 0 {
            i64::MAX
        } else {
            i64::MIN
        },
    }
}

pub fn saturating_sub_i64(a: i64, b: i64) -> (r: i64)
    ensures
        r == clamp_i64(a - b),
{
    match a.checked_sub(b) {
        Some(v) => v,
        None => if b < 0 {
            i64::MAX
        } else {
            i64::MIN
        },
    }
}

pub fn saturating_mul_i64(a: i64, b: i64) -> (r: i64)
    ensures
        r == clamp_i64(a * b),
{
    match a.checked_mul(b) {
        Some(v) => v,
        None => {
            if (a < 0) == (b < 0) {
                proof {
                    if a < 0 {
                        assert(a * b == (-a) * (-b)) by (nonlinear_arith);
                        assert((-a) * (-b) >= 0) by (nonlinear_arith)
                            requires a < 0, b < 0;
                    } else {
                        assert(a * b >= 0) by (nonlinear_arith)
                            requires a >= 0, b >= 0;
                    }
                }
                i64::MAX
            } else {
                proof {
                    if a < 0 {
                        assert(a * b <= 0) by (nonlinear_arith)
                            requires a < 0, b >= 0;
                    } else {
                        assert(a * b <= 0) by (nonlinear_arith)
                            requires a >= 0, b < 0;
                    }
                }
                i64::MIN
            }
        },
    }
}

/// One integration step of one coordinate.
pub open spec fn spec_step_axis(position: i64, velocity: i64, dt: i64) -> i64 {
    clamp_i64(position + trunc_div(clamp_i64(velocity * dt) as int, NANOS_PER_SECOND as int))
}

/// Elapsed nanoseconds as a signed step, saturating at `i64::MAX`.
pub open spec fn spec_dt(dt_ns: u64) -> i64 {
    if dt_ns <= i64::MAX {
        dt_ns as i64
    } else {
        i64::MAX
    }
}

pub open spec fn spec_integrate_body(b: Body, dt: i64) -> Body {
    Body {
        position: [
            spec_step_axis(b.position[0], b.velocity[0], dt),
            spec_step_axis(b.position[1], b.velocity[1], dt),
        ],
        velocity: b.velocity,
    }
}

fn step_axis(position: i64, velocity: i64, dt: i64) -> (r: i64)
    ensures
        r == spec_step_axis(position, velocity, dt),
{
    let scaled = saturating_mul_i64(velocity, dt);
    let moved = scaled / NANOS_PER_SECOND;
    saturating_add_i64(position, moved)
}

pub struct PhysicsSubsystem {
    bodies: Vec<Body>,
    capacity: usize,
    last_input: Option<InputFrame>,
}

impl PhysicsSubsystem {
    pub closed spec fn wf(&self) -> bool {
        self.bodies@.len() <= self.capacity
    }

    pub closed spec fn spec_bodies(&self) -> Seq<Body> {
        self.bodies@
    }

    pub closed spec fn spec_capacity(&self) -> nat {
        self.capacity as nat
    }

    pub closed spec fn spec_last_input(&self) -> Option<InputFrame> {
        self.last_input
    }

    pub fn with_capacity(capacity: usize) -> (r: Self)
        ensures
            r.wf(),
            r.spec_bodies() == Seq::<Body>::empty(),
            r.spec_capacity() == capacity,
            r.spec_last_input() is None,
    {
        Self { bodies: Vec::with_capacity(capacity), capacity, last_input: None }
    }

    pub fn try_with_capacity(capacity: usize) -> (r: Result<Self, PhysicsError>)
        ensures
            r matches Ok(p) ==> p.wf() && p.spec_bodies() == Seq::<Body>::empty()
                && p.spec_capacity() == capacity && p.spec_last_input() is None,
            r matches Err(e) ==> e == PhysicsError::AllocationFailed,
    {
        let mut bodies: Vec<Body> = Vec::new();
        if bodies.try_reserve(capacity).is_err() {
            return Err(PhysicsError::AllocationFailed);
        }
        Ok(Self { bodies, capacity, last_input: None })
    }

    /// Adds a body and returns its index, or `None` when the pool is full.
    pub fn add_body(&mut self, body: Body) -> (r: Option<usize>)
        requires
            old(self).wf(),
        ensures
            final(self).wf(),
            final(self).spec_capacity() == old(self).spec_capacity(),
            final(self).spec_last_input() == old(self).spec_last_input(),
            old(self).spec_bodies().len() == old(self).spec_capacity() ==> r is None
                && final(self).spec_bodies() == old(self).spec_bodies(),
            old(self).spec_bodies().len() < old(self).spec_capacity() ==> r == Some(
                old(self).spec_bodies().len() as usize,
            ) && final(self).spec_bodies() == old(self).spec_bodies().push(body),
    {
        if self.bodies.len() == self.capacity {
            return None;
        }
        self.bodies.push(body);
        Some(self.bodies.len() - 1)
    }

    pub fn bodies(&self) -> (r: &[Body])
        ensures
            r@ == self.spec_bodies(),
    {
        self.bodies.as_slice()
    }

    pub fn last_input(&self) -> (r: Option<InputFrame>)
        ensures
            r == self.spec_last_input(),
    {
        self.last_input
    }

    /// Moves every body by its velocity over `dt_ns` nanoseconds.
    pub fn integrate(&mut self, dt_ns: u64)
        requires
            old(self).wf(),
        ensures
            final(self).wf(),
            final(self).spec_capacity() == old(self).spec_capacity(),
            final(self).spec_last_input() == old(self).spec_last_input(),
            final(self).spec_bodies().len() == old(self).spec_bodies().len(),
            forall|i: int|
                0 <= i < old(self).spec_bodies().len() ==> #[trigger] final(self).spec_bodies()[i]
                    == spec_integrate_body(old(self).spec_bodies()[i], spec_dt(dt_ns)),
    {
        let dt: i64 = if dt_ns <= 9_223_372_036_854_775_807u64 {
            dt_ns as i64
        } else {
            i64::MAX
        };
        let mut i: usize = 0;
        while i < self.bodies.len()
            invariant
                i <= self.bodies@.len(),
                dt == spec_dt(dt_ns),
                self.bodies@.len() == old(self).bodies@.len(),
                self.capacity == old(self).capacity,
                self.last_input == old(self).last_input,
                forall|j: int|
                    0 <= j < i ==> #[trigger] self.bodies@[j] == spec_integrate_body(
                        old(self).bodies@[j],
                        dt,
                    ),
                forall|j: int| i <= j < self.bodies@.len() ==> self.bodies@[j] == old(self).bodies@[j],
            decreases self.bodies.len() - i,
        {
            let body = self.bodies[i];
            let x = step_axis(body.position[0], body.velocity[0], dt);
            let y = step_axis(body.position[1], body.velocity[1], dt);
            let moved = Body { position: [x, y], velocity: body.velocity };
            proof {
                assert(moved.position@ =~= spec_integrate_body(body, dt).position@);
            }
            self.bodies.set(i, moved);
            i = i + 1;
        }
    }

    /// One fixed step: keeps the newest input frame delivered this step, if
    /// any, then integrates.
    pub fn tick(&mut self, inputs: &[InputFrame], dt_ns: u64)
        requires
            old(self).wf(),
        ensures
            final(self).wf(),
            final(self).spec_last_input() == (if inputs@.len() > 0 {
                Some(inputs@.last())
            } else {
                old(self).spec_last_input()
            }),
            final(self).spec_bodies().len() == old(self).spec_bodies().len(),
            forall|i: int|
                0 <= i < old(self).spec_bodies().len() ==> #[trigger] final(self).spec_bodies()[i]
                    == spec_integrate_body(old(self).spec_bodies()[i], spec_dt(dt_ns)),
    {
        if inputs.len() > 0 {
            self.last_input = Some(inputs[inputs.len() - 1]);
        }
        self.integrate(dt_ns);
    }
}

impl Default for PhysicsSubsystem {
    fn default() -> (r: Self)
        ensures
            r.wf(),
            r.spec_bodies() == Seq::<Body>::empty(),
            r.spec_capacity() == 128,
            r.spec_last_input() is None,
    {
        Self::with_capacity(128)
    }
}

} // verus!
