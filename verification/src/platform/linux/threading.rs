//! Linux thread placement: the `cpu_set_t` mask handed to
//! `sched_setaffinity`, and the arrival rule of the futex barrier.
use vstd::prelude::*;

verus! {

/// Bytes of the CPU set passed to the kernel (1024 possible CPUs).
pub const CPU_SET_SIZE: usize = 128;

/// Bit `cpu % 8` of byte `cpu / 8` is set exactly for the listed CPUs
/// below 1024; larger CPU numbers are ignored.
pub open spec fn cpu_set_bit(cpus: Seq<usize>, byte: int, bit: int) -> bool {
    exists|k: int| 0 <= k < cpus.len() && #[trigger] cpus[k] == byte * 8 + bit
}

/// Bit `bit` of `b` is set.
pub open spec fn bit_set(b: u8, bit: int) -> bool {
    (b >> (bit as u8)) & 1 == 1
}

/// The `sched_setaffinity` mask for `cpus`.
pub fn cpu_set_mask(cpus: &[usize]) -> (r: [u8; 128])
    ensures
        forall|byte: int, bit: int|
            0 <= byte < 128 && 0 <= bit < 8 ==> #[trigger] bit_set(r@[byte], bit) == cpu_set_bit(cpus@, byte, bit),
{
    let mut mask = [0u8; 128];
    proof {
        assert forall|byte: int, bit: int| 0 <= byte < 128 && 0 <= bit < 8 implies #[trigger] bit_set(mask@[byte], bit) == cpu_set_bit(cpus@.take(0), byte, bit) by {
            let bb = bit as u8;
            assert(mask@[byte] == 0u8);
            assert((0u8 >> bb) & 1 != 1) by (bit_vector);
        }
    }
    let mut i: usize = 0;
    while i < cpus.len()
        invariant
            i <= cpus@.len(),
            mask@.len() == 128,
            forall|byte: int, bit: int|
                0 <= byte < 128 && 0 <= bit < 8 ==> #[trigger] bit_set(mask@[byte], bit) == cpu_set_bit(cpus@.take(i as int), byte, bit),
        decreases cpus.len() - i,
    {
        let cpu = cpus[i];
        let ghost before = mask@;
        if cpu < CPU_SET_SIZE * 8 {
            let byte = cpu / 8;
            let bit = (cpu % 8) as u8;
            let old_byte = mask[byte];
            let new_byte = old_byte | (1u8 << bit);
            mask[byte] = new_byte;
            proof {
                assert forall|b: int| 0 <= b < 8 implies bit_set(new_byte, b) == (bit_set(old_byte, b) || b == bit) by {
                    let bb = b as u8;
                    assert(bit < 8);
                    assert(bb < 8 && bit < 8 ==> (((old_byte | (1u8 << bit)) >> bb) & 1 == 1) == (((
                    old_byte >> bb) & 1 == 1) || bb == bit)) by (bit_vector);
                }
                assert forall|byte2: int, b: int| 0 <= byte2 < 128 && 0 <= b < 8 && byte2 != byte implies bit_set(mask@[byte2], b) == bit_set(before[byte2], b) by {
                    assert(mask@[byte2] == before[byte2]);
                }
            }
        }
        proof {
            let t = cpus@.take(i as int + 1);
            assert(t =~= cpus@.take(i as int).push(cpu));
            assert forall|byte: int, bit: int|
                0 <= byte < 128 && 0 <= bit < 8 implies #[trigger] bit_set(mask@[byte], bit) == cpu_set_bit(t, byte, bit) by {
                let prev = cpus@.take(i as int);
                if cpu_set_bit(prev, byte, bit) {
                    let k = choose|k: int| 0 <= k < prev.len() && #[trigger] prev[k] == byte * 8 + bit;
                    assert(t[k] == prev[k]);
                }
                if cpu_set_bit(t, byte, bit) {
                    let k = choose|k: int| 0 <= k < t.len() && #[trigger] t[k] == byte * 8 + bit;
                    if k < prev.len() {
                        assert(prev[k] == t[k]);
                    }
                }
                if cpu == byte * 8 + bit {
                    assert(t[i as int] == cpu);
                }
            }
        }
        i = i + 1;
    }
    proof {
        assert(cpus@.take(cpus@.len() as int) =~= cpus@);
    }
    mask
}

/// A barrier admits at least one thread per generation.
pub fn barrier_total(total: u32) -> (r: u32)
    ensures
        r == if total == 0 {
            1
        } else {
            total
        },
{
    if total == 0 {
        1
    } else {
        total
    }
}

/// The arrival that brings the count (before it, `previous`) up to the
/// barrier's total releases the generation; every other one waits.
pub fn arrival_releases(previous: u32, total: u32) -> (r: bool)
    requires
        previous < u32::MAX,
    ensures
        r == (previous + 1 == total),
{
    previous + 1 == total
}

/// A waiter leaves once the generation it arrived in has passed.
pub fn generation_passed(current: u32, arrived_in: u32) -> (r: bool)
    ensures
        r == (current != arrived_in),
{
    current != arrived_in
}

} // verus!
