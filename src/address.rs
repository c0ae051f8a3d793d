//! Socket addresses and finite sets of them.
use vstd::prelude::*;

verus! {

/// An IP address: IPv4 as its 32-bit value, IPv6 as its 128-bit value.
#[derive(Clone, Copy, Debug, PartialEq, Eq, Structural, Hash)]
pub enum IpAddress {
    V4(u32),
    V6(u128),
}

impl IpAddress {
    /// The IPv4 address `a.b.c.d`.
    pub fn v4(a: u8, b: u8, c: u8, d: u8) -> (r: IpAddress)
        ensures
            r == IpAddress::V4((a * 0x1000000 + b * 0x10000 + c * 0x100 + d) as u32),
    {
        assert(a * 0x1000000 + b * 0x10000 + c * 0x100 + d <= u32::MAX) by (nonlinear_arith)
            requires
                a <= 255,
                b <= 255,
                c <= 255,
                d <= 255,
        ;
        IpAddress::V4((a as u32) * 0x1000000 + (b as u32) * 0x10000 + (c as u32) * 0x100 + (d as u32))
    }
}

/// An IP address together with a resolved port: the key of every change.
#[derive(Clone, Copy, Debug, PartialEq, Eq, Structural, Hash)]
pub struct Address {
    pub ip: IpAddress,
    pub port: u16,
}

/// A finite set of addresses, kept as a vector without repetitions.
#[derive(Clone, Debug)]
pub struct AddressSet {
    addrs: Vec<Address>,
}

impl View for AddressSet {
    type V = Set<Address>;

    closed spec fn view(&self) -> Set<Address> {
        self.addrs@.to_set()
    }
}

impl AddressSet {
    /// Well-formedness: no address is stored twice.
    pub closed spec fn wf(&self) -> bool {
        self.addrs@.no_duplicates()
    }

    /// The empty set.
    pub fn new() -> (r: AddressSet)
        ensures
            r.wf(),
            r@ == Set::<Address>::empty(),
    {
        let r = AddressSet { addrs: Vec::new() };
        assert(r.addrs@.to_set() =~= Set::<Address>::empty());
        r
    }

    /// The addresses of the set, each once, in the order in which they were
    /// first inserted.
    pub fn addresses(&self) -> (r: &Vec<Address>)
        requires
            self.wf(),
        ensures
            r@.to_set() == self@,
            r@.no_duplicates(),
    {
        &self.addrs
    }

    /// The number of addresses in the set.
    pub fn len(&self) -> (r: usize)
        requires
            self.wf(),
        ensures
            r == self@.len(),
    {
        proof {
            self.addrs@.unique_seq_to_set();
        }
        self.addrs.len()
    }

    /// Whether the set is empty.
    pub fn is_empty(&self) -> (r: bool)
        requires
            self.wf(),
        ensures
            r == (self@ == Set::<Address>::empty()),
    {
        proof {
            self.addrs@.unique_seq_to_set();
            if self.addrs@.len() > 0 {
                assert(self@.contains(self.addrs@[0]));
            } else {
                assert(self@ =~= Set::<Address>::empty());
            }
            self.addrs@.lemma_cardinality_of_empty_set_is_0();
        }
        self.addrs.len() == 0
    }

    /// The position of `a` in the backing vector, if it is there.
    fn position(&self, a: &Address) -> (r: Option<usize>)
        ensures
            r matches Some(i) ==> i < self.addrs@.len() && self.addrs@[i as int] == *a,
            r is None ==> !self@.contains(*a),
    {
        let mut i: usize = 0;
        while i < self.addrs.len()
            invariant
                i <= self.addrs@.len(),
                forall|j: int| 0 <= j < i ==> self.addrs@[j] != *a,
            decreases self.addrs@.len() - i,
        {
            if self.addrs[i] == *a {
                return Some(i);
            }
            i = i + 1;
        }
        None
    }

    /// Whether `a` is in the set.
    pub fn contains(&self, a: &Address) -> (r: bool)
        requires
            self.wf(),
        ensures
            r == self@.contains(*a),
    {
        self.position(a).is_some()
    }

    /// Adds `a`; returns whether it was absent before.
    pub fn insert(&mut self, a: Address) -> (r: bool)
        requires
            old(self).wf(),
        ensures
            final(self).wf(),
            final(self)@ == old(self)@.insert(a),
            r == !old(self)@.contains(a),
    {
        if self.contains(&a) {
            assert(self@.insert(a) =~= self@);
            false
        } else {
            let ghost before = self.addrs@;
            self.addrs.push(a);
            proof {
                assert(self.addrs@ == before.push(a));
                before.lemma_push_to_set_commute(a);
                assert forall|i: int, j: int|
                    0 <= i < j < self.addrs@.len() implies self.addrs@[i] != self.addrs@[j] by {
                    if j == before.len() {
                        assert(before.to_set().contains(before[i]));
                    }
                }
            }
            true
        }
    }

    /// Removes `a`; returns whether it was present before.
    pub fn remove(&mut self, a: &Address) -> (r: bool)
        requires
            old(self).wf(),
        ensures
            final(self).wf(),
            final(self)@ == old(self)@.remove(*a),
            r == old(self)@.contains(*a),
    {
        match self.position(a) {
            None => {
                assert(self@.remove(*a) =~= self@);
                false
            },
            Some(i) => {
                let ghost before = self.addrs@;
                self.addrs.remove(i);
                proof {
                    let after = self.addrs@;
                    assert(after =~= before.remove(i as int));
                    assert forall|x: Address| after.to_set().contains(x) <==> before.to_set().remove(
                        *a,
                    ).contains(x) by {
                        if after.to_set().contains(x) {
                            let k = choose|k: int| 0 <= k < after.len() && after[k] == x;
                            if k < i {
                                assert(before[k] == x);
                            } else {
                                assert(before[k + 1] == x);
                            }
                        }
                        if before.to_set().remove(*a).contains(x) {
                            let k = choose|k: int| 0 <= k < before.len() && before[k] == x;
                            if k < i {
                                assert(after[k] == x);
                            } else {
                                assert(after[k - 1] == x);
                            }
                        }
                    }
                    assert(after.to_set() =~= before.to_set().remove(*a));
                }
                true
            },
        }
    }
}

} // verus!
