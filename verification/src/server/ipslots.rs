//! Connections per source address.

use std::collections::HashMap;

use vstd::prelude::*;

verus! {

broadcast use vstd::std_specs::hash::group_hash_axioms;

/// A source address.
#[derive(Debug, Clone, Copy, PartialEq, Eq, Structural)]
pub enum Ip {
    V4(u32),
    V6(u128),
}

/// How many connections each source address holds. An address that holds none has
/// no entry.
pub struct IpSlots {
    v4: HashMap<u32, u32>,
    v6: HashMap<u128, u32>,
}

impl IpSlots {
    /// The connections that an address holds.
    pub closed spec fn count(&self, ip: Ip) -> nat {
        match ip {
            Ip::V4(a) => if self.v4@.contains_key(a) {
                self.v4@[a] as nat
            } else {
                0
            },
            Ip::V6(a) => if self.v6@.contains_key(a) {
                self.v6@[a] as nat
            } else {
                0
            },
        }
    }

    /// No entry stands for zero connections.
    pub closed spec fn wf(&self) -> bool {
        &&& forall|a: u32| #[trigger] self.v4@.contains_key(a) ==> self.v4@[a] > 0
        &&& forall|a: u128| #[trigger] self.v6@.contains_key(a) ==> self.v6@[a] > 0
    }

    /// The addresses that have an entry.
    pub closed spec fn has_entry(&self, ip: Ip) -> bool {
        match ip {
            Ip::V4(a) => self.v4@.contains_key(a),
            Ip::V6(a) => self.v6@.contains_key(a),
        }
    }

    /// An address without connections takes no memory.
    pub proof fn law_no_stale_entries(&self, ip: Ip)
        requires
            self.wf(),
        ensures
            self.has_entry(ip) <==> self.count(ip) > 0,
    {
    }

    pub fn new() -> (res: Self)
        ensures
            res.wf(),
            forall|ip: Ip| res.count(ip) == 0,
    {
        IpSlots { v4: HashMap::new(), v6: HashMap::new() }
    }

    /// The connections that an address holds.
    pub fn held(&self, ip: Ip) -> (res: u32)
        ensures
            res == self.count(ip),
    {
        match ip {
            Ip::V4(a) => match self.v4.get(&a) {
                Some(n) => *n,
                None => 0,
            },
            Ip::V6(a) => match self.v6.get(&a) {
                Some(n) => *n,
                None => 0,
            },
        }
    }

    fn set(&mut self, ip: Ip, n: u32)
        requires
            old(self).wf(),
        ensures
            final(self).wf(),
            final(self).count(ip) == n,
            forall|other: Ip| other != ip ==> final(self).count(other) == old(self).count(other),
    {
        match ip {
            Ip::V4(a) => {
                if n == 0 {
                    self.v4.remove(&a);
                } else {
                    self.v4.insert(a, n);
                }
            },
            Ip::V6(a) => {
                if n == 0 {
                    self.v6.remove(&a);
                } else {
                    self.v6.insert(a, n);
                }
            },
        }
    }

    /// Reserve a slot for `ip`; false if it already holds `max` connections. With
    /// `max == 0` there is no limit.
    pub fn try_acquire(&mut self, ip: Ip, max: u32) -> (res: bool)
        requires
            old(self).wf(),
            old(self).count(ip) < u32::MAX,
        ensures
            final(self).wf(),
            res == (max == 0 || old(self).count(ip) < max),
            final(self).count(ip) == old(self).count(ip) + (if res {
                1int
            } else {
                0
            }),
            forall|other: Ip| other != ip ==> final(self).count(other) == old(self).count(other),
    {
        let held: u32 = self.held(ip);
        if max != 0 && held >= max {
            return false;
        }
        self.set(ip, held + 1);
        true
    }

    /// Give the slot back when the connection ends.
    pub fn release(&mut self, ip: Ip)
        requires
            old(self).wf(),
        ensures
            final(self).wf(),
            final(self).count(ip) == (if old(self).count(ip) > 0 {
                old(self).count(ip) - 1
            } else {
                0
            }),
            forall|other: Ip| other != ip ==> final(self).count(other) == old(self).count(other),
    {
        let held: u32 = self.held(ip);
        if held > 0 {
            self.set(ip, held - 1);
        }
    }
}

} // verus!
