//! Sets of processors.

use crate::slab::bitfield::word_bit;
use vstd::prelude::*;

verus! {

/// Number of processors that a mask can hold.
pub const MAX_CPU_NUM: u32 = 64;

/// A set of processors, each named by its number below `MAX_CPU_NUM`.
#[derive(Debug, Clone, Copy)]
pub struct CpuMask {
    bits: u64,
}

impl CpuMask {
    /// Whether processor `cpu` is in the mask.
    pub closed spec fn contains(&self, cpu: u32) -> bool {
        cpu < MAX_CPU_NUM && word_bit(self.bits, cpu as u64)
    }

    /// The empty mask.
    pub fn new() -> (m: CpuMask)
        ensures
            forall|cpu: u32| !m.contains(cpu),
    {
        let m = CpuMask { bits: 0 };
        proof {
            assert forall|cpu: u32| !m.contains(cpu) by {
                let c = cpu as u64;
                assert((0u64 >> c) & 1 == 0) by (bit_vector);
            }
        }
        m
    }

    /// Whether processor `cpu` is in the mask, or nothing if the mask cannot
    /// hold that processor.
    pub fn get(&self, cpu: u32) -> (r: Option<bool>)
        ensures
            r == (if cpu < MAX_CPU_NUM {
                Some(self.contains(cpu))
            } else {
                None
            }),
    {
        if cpu >= MAX_CPU_NUM {
            return None;
        }
        let c = cpu as u64;
        Some((self.bits >> c) & 1 == 1)
    }

    /// Puts processor `cpu` in the mask or takes it out, and returns whether
    /// it was in the mask before; does nothing and returns nothing if the mask
    /// cannot hold that processor.
    pub fn set(&mut self, cpu: u32, value: bool) -> (r: Option<bool>)
        ensures
            cpu >= MAX_CPU_NUM ==> r is None && *final(self) == *old(self),
            cpu < MAX_CPU_NUM ==> r == Some(old(self).contains(cpu)),
            cpu < MAX_CPU_NUM ==> forall|other: u32|
                #[trigger] final(self).contains(other) == (if other == cpu {
                    value
                } else {
                    old(self).contains(other)
                }),
    {
        if cpu >= MAX_CPU_NUM {
            return None;
        }
        let c = cpu as u64;
        let before = (self.bits >> c) & 1 == 1;
        let ghost w = self.bits;
        if value {
            self.bits = self.bits | (1u64 << c);
        } else {
            self.bits = self.bits & !(1u64 << c);
        }
        proof {
            let after = self.bits;
            assert forall|other: u32| #[trigger]
                self.contains(other) == (if other == cpu {
                    value
                } else {
                    old(self).contains(other)
                }) by {
                if other < MAX_CPU_NUM {
                    let j = other as u64;
                    if value {
                        assert(((w | (1u64 << c)) >> j) & 1 == 1 <==> (j == c || (w >> j) & 1
                            == 1)) by (bit_vector)
                            requires
                                c < 64,
                                j < 64,
                        ;
                    } else {
                        assert(((w & !(1u64 << c)) >> j) & 1 == 1 <==> (j != c && (w >> j) & 1
                            == 1)) by (bit_vector)
                            requires
                                c < 64,
                                j < 64,
                        ;
                    }
                }
            }
        }
        Some(before)
    }
}

} // verus!
