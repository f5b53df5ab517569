//! Scheduler domains: the sets of processors among which load is balanced,
//! and the groups that a domain is made of.

use super::balance::MAX_LOAD_BALANCE_INTERVAL;
use super::idle::CpuIdleType;
use super::idle::MAX_IDLE_TYPES;
use crate::cpumask::CpuMask;
use crate::time::HZ;
use std::sync::Arc;
use vstd::prelude::*;

verus! {

/// What a scheduler domain holds, as plain values.
pub struct SchedDomainView {
    pub parent: Option<Arc<SchedDomain>>,
    pub child: Option<Arc<SchedDomain>>,
    pub span: CpuMask,
    pub flags: u32,
    pub groups: Arc<SchedGroup>,
    pub max_newidle_lb_cost: u64,
    pub last_decay_max_lb_cost: u64,
    pub lb_count: [u32; MAX_IDLE_TYPES],
    pub lb_nobusyq: [u32; MAX_IDLE_TYPES],
    pub lb_imbalance: [u32; MAX_IDLE_TYPES],
    pub lb_failed: [u32; MAX_IDLE_TYPES],
    pub lb_balanced: [u32; MAX_IDLE_TYPES],
    pub nr_balance_failed: u32,
    pub balance_interval: u64,
    pub busy_factor: u64,
    pub last_balance: u64,
}

/// A scheduler domain. Each processor has one domain of every level.
#[derive(Debug)]
pub struct SchedDomain {
    parent: Option<Arc<SchedDomain>>,
    child: Option<Arc<SchedDomain>>,
    span: CpuMask,
    flags: u32,
    /// The group of this domain's processor, in the ring of the domain's
    /// groups.
    groups: Arc<SchedGroup>,
    /// The highest cost met while balancing a newly idle processor.
    max_newidle_lb_cost: u64,
    /// The time, in jiffies, at which that cost was last set or decayed.
    last_decay_max_lb_cost: u64,
    /// Number of balances of each idle type.
    pub lb_count: [u32; MAX_IDLE_TYPES],
    /// Number of balances of each idle type that found no busy queue.
    pub lb_nobusyq: [u32; MAX_IDLE_TYPES],
    /// Imbalance found by the balances of each idle type.
    pub lb_imbalance: [u32; MAX_IDLE_TYPES],
    /// Number of balances of each idle type that moved nothing.
    pub lb_failed: [u32; MAX_IDLE_TYPES],
    /// Number of balances of each idle type that found the domain balanced.
    pub lb_balanced: [u32; MAX_IDLE_TYPES],
    pub nr_balance_failed: u32,
    /// Time between two balances of an idle processor, in milliseconds.
    balance_interval: u64,
    /// Factor by which a busy processor stretches that time.
    busy_factor: u64,
    /// The time, in jiffies, of the last balance of this domain.
    last_balance: u64,
}

/// The highest cost after one decay: 253/256 of `cost`, where the product
/// stops at `u64::MAX`.
pub open spec fn decayed_cost(cost: u64) -> u64 {
    if cost * 253 > u64::MAX {
        (u64::MAX / 256) as u64
    } else {
        (cost * 253 / 256) as u64
    }
}

/// `x` held between `lo` and `hi`.
pub open spec fn clamped(x: int, lo: int, hi: int) -> int {
    if x < lo {
        lo
    } else if x > hi {
        hi
    } else {
        x
    }
}

/// The time between two balances, in jiffies, of a domain whose idle
/// interval is `base` milliseconds: a busy processor waits `busy_factor`
/// times as long, less one jiffy, and the result is held between one jiffy
/// and `MAX_LOAD_BALANCE_INTERVAL`.
pub open spec fn balance_interval_spec(base: u64, busy_factor: u64, busy: bool) -> int {
    let interval = if busy {
        base * busy_factor * HZ / 1000 - 1
    } else {
        base as int
    };
    clamped(interval, 1, MAX_LOAD_BALANCE_INTERVAL as int)
}

impl View for SchedDomain {
    type V = SchedDomainView;

    closed spec fn view(&self) -> SchedDomainView {
        SchedDomainView {
            parent: self.parent,
            child: self.child,
            span: self.span,
            flags: self.flags,
            groups: self.groups,
            max_newidle_lb_cost: self.max_newidle_lb_cost,
            last_decay_max_lb_cost: self.last_decay_max_lb_cost,
            lb_count: self.lb_count,
            lb_nobusyq: self.lb_nobusyq,
            lb_imbalance: self.lb_imbalance,
            lb_failed: self.lb_failed,
            lb_balanced: self.lb_balanced,
            nr_balance_failed: self.nr_balance_failed,
            balance_interval: self.balance_interval,
            busy_factor: self.busy_factor,
            last_balance: self.last_balance,
        }
    }
}

impl SchedDomain {
    /// A domain over the processors of `span`, with no parent and no child,
    /// one empty group, no statistics, an idle interval of one millisecond
    /// and a busy factor of 32.
    pub fn new(span: CpuMask) -> (sd: SchedDomain)
        ensures
            sd@.parent is None,
            sd@.child is None,
            sd@.span == span,
            sd@.flags == 0,
            sd@.groups.spec_next() is None,
            forall|cpu: u32| !sd@.groups.spec_cpumask().contains(cpu),
            sd@.max_newidle_lb_cost == 0,
            sd@.last_decay_max_lb_cost == 0,
            forall|i: int|
                0 <= i < MAX_IDLE_TYPES ==> sd@.lb_count@[i] == 0 && sd@.lb_nobusyq@[i] == 0
                    && sd@.lb_imbalance@[i] == 0 && sd@.lb_failed@[i] == 0
                    && sd@.lb_balanced@[i] == 0,
            sd@.nr_balance_failed == 0,
            sd@.balance_interval == 1,
            sd@.busy_factor == 32,
            sd@.last_balance == 0,
    {
        SchedDomain {
            parent: None,
            child: None,
            span,
            flags: 0,
            groups: Arc::new(SchedGroup::new(CpuMask::new())),
            max_newidle_lb_cost: 0,
            last_decay_max_lb_cost: 0,
            lb_count: [0; 3],
            lb_nobusyq: [0; 3],
            lb_imbalance: [0; 3],
            lb_failed: [0; 3],
            lb_balanced: [0; 3],
            nr_balance_failed: 0,
            balance_interval: 1,
            busy_factor: 32,
            last_balance: 0,
        }
    }

    /// The domain one level up.
    pub fn parent(&self) -> (r: Option<Arc<SchedDomain>>)
        ensures
            r == self@.parent,
    {
        match &self.parent {
            Some(p) => Some(Arc::clone(p)),
            None => None,
        }
    }

    pub fn set_parent(&mut self, parent: Option<Arc<SchedDomain>>)
        ensures
            final(self)@ == (SchedDomainView { parent: parent, ..old(self)@ }),
    {
        self.parent = parent;
    }

    /// The domain one level down.
    pub fn child(&self) -> (r: Option<Arc<SchedDomain>>)
        ensures
            r == self@.child,
    {
        match &self.child {
            Some(c) => Some(Arc::clone(c)),
            None => None,
        }
    }

    pub fn set_child(&mut self, child: Option<Arc<SchedDomain>>)
        ensures
            final(self)@ == (SchedDomainView { child: child, ..old(self)@ }),
    {
        self.child = child;
    }

    /// The processors of the domain.
    pub fn span(&self) -> (r: &CpuMask)
        ensures
            *r == self@.span,
    {
        &self.span
    }

    /// The group of this domain's processor.
    pub fn groups(&self) -> (r: &Arc<SchedGroup>)
        ensures
            *r == self@.groups,
    {
        &self.groups
    }

    /// The highest cost met while balancing a newly idle processor.
    pub fn max_newidle_lb_cost(&self) -> (r: u64)
        ensures
            r == self@.max_newidle_lb_cost,
    {
        self.max_newidle_lb_cost
    }

    pub fn set_last_balance(&mut self, last_balance: u64)
        ensures
            final(self)@ == (SchedDomainView { last_balance: last_balance, ..old(self)@ }),
    {
        self.last_balance = last_balance;
    }

    /// The time, in jiffies, of the last balance of this domain.
    pub fn last_balance(&self) -> (r: u64)
        ensures
            r == self@.last_balance,
    {
        self.last_balance
    }

    /// Records the cost of one balance of a newly idle processor, at the
    /// time `current_jiffies`.
    ///
    /// A cost above the highest so far becomes the highest, and the result
    /// is `false`. Otherwise, once more than a second has passed since the
    /// highest cost was last set or decayed, it decays to 253/256 of itself
    /// and the result is `true`. In both cases the time is recorded.
    pub fn update_newidle_cost(&mut self, cost: u64, current_jiffies: u64) -> (r: bool)
        ensures
            cost > old(self)@.max_newidle_lb_cost ==> !r && final(self)@ == (SchedDomainView {
                max_newidle_lb_cost: cost,
                last_decay_max_lb_cost: current_jiffies,
                ..old(self)@
            }),
            cost <= old(self)@.max_newidle_lb_cost && current_jiffies > old(
                self,
            )@.last_decay_max_lb_cost + HZ ==> r && final(self)@ == (SchedDomainView {
                max_newidle_lb_cost: decayed_cost(old(self)@.max_newidle_lb_cost),
                last_decay_max_lb_cost: current_jiffies,
                ..old(self)@
            }),
            cost <= old(self)@.max_newidle_lb_cost && current_jiffies <= old(
                self,
            )@.last_decay_max_lb_cost + HZ ==> !r && final(self)@ == old(self)@,
    {
        if cost > self.max_newidle_lb_cost {
            self.max_newidle_lb_cost = cost;
            self.last_decay_max_lb_cost = current_jiffies;
            return false;
        }
        let due = match self.last_decay_max_lb_cost.checked_add(HZ) {
            Some(limit) => current_jiffies > limit,
            None => false,
        };
        if due {
            let new_cost = match self.max_newidle_lb_cost.checked_mul(253) {
                Some(scaled) => scaled / 256,
                None => u64::MAX / 256,
            };
            self.max_newidle_lb_cost = new_cost;
            self.last_decay_max_lb_cost = current_jiffies;
            return true;
        }
        false
    }

    /// The time until the next balance of this domain, in jiffies, for a
    /// processor in the state `cpu_busy`.
    pub fn balance_interval(&self, cpu_busy: CpuIdleType) -> (r: u64)
        ensures
            r == balance_interval_spec(
                self@.balance_interval,
                self@.busy_factor,
                cpu_busy == CpuIdleType::NotIdle,
            ),
            1 <= r <= MAX_LOAD_BALANCE_INTERVAL,
    {
        let busy = match cpu_busy {
            CpuIdleType::NotIdle => true,
            _ => false,
        };
        if !busy {
            let interval = self.balance_interval;
            return if interval < 1 {
                1
            } else if interval > MAX_LOAD_BALANCE_INTERVAL {
                MAX_LOAD_BALANCE_INTERVAL
            } else {
                interval
            };
        }
        let ghost exact = self.balance_interval * self.busy_factor * HZ;
        // More than `u64::MAX` milliseconds are more than the longest interval.
        let scaled = match self.balance_interval.checked_mul(self.busy_factor) {
            Some(ms) => ms.checked_mul(HZ),
            None => None,
        };
        match scaled {
            None => {
                assert(exact > u64::MAX) by (nonlinear_arith)
                    requires
                        exact == self.balance_interval * self.busy_factor * HZ,
                        self.balance_interval * self.busy_factor > u64::MAX
                            || self.balance_interval * self.busy_factor * HZ > u64::MAX,
                        HZ == 250,
                ;
                MAX_LOAD_BALANCE_INTERVAL
            },
            Some(ticks) => {
                let interval = ticks / 1000;
                if interval <= 1 {
                    1
                } else if interval - 1 > MAX_LOAD_BALANCE_INTERVAL {
                    MAX_LOAD_BALANCE_INTERVAL
                } else {
                    interval - 1
                }
            },
        }
    }
}

/// A group of processors within a scheduler domain.
#[derive(Debug)]
pub struct SchedGroup {
    /// The groups of a domain form a ring; this is the next group in it.
    next: Option<Arc<SchedGroup>>,
    /// The processors of the group.
    cpumask: CpuMask,
    /// The computing power of the group.
    sgc: SchedGroupCapacity,
}

impl SchedGroup {
    /// The next group in the ring.
    pub closed spec fn spec_next(&self) -> Option<Arc<SchedGroup>> {
        self.next
    }

    /// The processors of the group.
    pub closed spec fn spec_cpumask(&self) -> CpuMask {
        self.cpumask
    }

    /// The computing power of the group.
    pub closed spec fn spec_sgc(&self) -> SchedGroupCapacity {
        self.sgc
    }

    /// A group of the processors of `cpumask`, alone in its ring and with no
    /// computing power recorded.
    pub fn new(cpumask: CpuMask) -> (g: SchedGroup)
        ensures
            g.spec_next() is None,
            g.spec_cpumask() == cpumask,
            g.spec_sgc().is_new(),
    {
        SchedGroup { next: None, cpumask, sgc: SchedGroupCapacity::new() }
    }

    /// The next group in the ring.
    pub fn next(&self) -> (r: Option<Arc<SchedGroup>>)
        ensures
            r == self.spec_next(),
    {
        match &self.next {
            Some(n) => Some(Arc::clone(n)),
            None => None,
        }
    }

    pub fn set_next(&mut self, next: Option<Arc<SchedGroup>>)
        ensures
            final(self).spec_next() == next,
            final(self).spec_cpumask() == old(self).spec_cpumask(),
            final(self).spec_sgc() == old(self).spec_sgc(),
    {
        self.next = next;
    }

    /// The processors of the group.
    pub fn cpumask(&self) -> (r: &CpuMask)
        ensures
            *r == self.spec_cpumask(),
    {
        &self.cpumask
    }

    /// The computing power of the group.
    pub fn sgc(&self) -> (r: &SchedGroupCapacity)
        ensures
            *r == self.spec_sgc(),
    {
        &self.sgc
    }
}

/// The computing power of a group of processors.
#[derive(Debug)]
pub struct SchedGroupCapacity {
    /// Power of the group, where `SCHED_CAPACITY_SCALE` is the whole power of
    /// one processor.
    capacity: u64,
    min_capacity: u64,
    max_capacity: u64,
    next_update: u64,
    imbalance: i32,
    id: i32,
    cpumask: CpuMask,
}

impl SchedGroupCapacity {
    /// The imbalance recorded for the group.
    pub closed spec fn spec_imbalance(&self) -> i32 {
        self.imbalance
    }

    /// Nothing is recorded: every number is zero and the mask is empty.
    pub closed spec fn is_new(&self) -> bool {
        &&& self.capacity == 0
        &&& self.min_capacity == 0
        &&& self.max_capacity == 0
        &&& self.next_update == 0
        &&& self.imbalance == 0
        &&& self.id == 0
        &&& forall|cpu: u32| !self.cpumask.contains(cpu)
    }

    /// A record with no computing power and no processor.
    pub fn new() -> (c: SchedGroupCapacity)
        ensures
            c.is_new(),
            c.spec_imbalance() == 0,
    {
        SchedGroupCapacity {
            capacity: 0,
            min_capacity: 0,
            max_capacity: 0,
            next_update: 0,
            imbalance: 0,
            id: 0,
            cpumask: CpuMask::new(),
        }
    }

    /// The imbalance recorded for the group.
    pub fn imbalance(&self) -> (r: i32)
        ensures
            r == self.spec_imbalance(),
    {
        self.imbalance
    }
}

} // verus!
