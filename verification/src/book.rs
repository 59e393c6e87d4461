//! A map from addresses, kept in the order of the addresses.
use vstd::prelude::*;

use crate::address::{same_address, Address};
use crate::bytes::{lemma_pow256_grows, of_be, of_be_writes_back, pow256};

verus! {

/// A map from addresses: its entries by ascending address, each address once.
pub struct Book<V> {
    pub entries: Vec<(Address, V)>,
}

/// The place of an address in the order of addresses: byte by byte, the first
/// byte first.
pub open spec fn rank(a: Address) -> nat {
    of_be(a@)
}

/// Entries ascend by address.
pub open spec fn in_order<V>(s: Seq<(Address, V)>) -> bool {
    forall|i: int, j: int| 0 <= i < j < s.len() ==> rank((#[trigger] s[i]).0) < rank((#[trigger] s[j]).0)
}

/// Addresses in one place of the order are the same.
pub proof fn lemma_rank_unique(a: Address, b: Address)
    requires
        rank(a) == rank(b),
    ensures
        a == b,
{
    of_be_writes_back(a@);
    of_be_writes_back(b@);
    assert(a@ =~= b@);
    assert(a =~= b);
}

/// The place of an address in the order of addresses.
fn rank_of(a: &Address) -> (r: u128)
    ensures
        r == rank(*a),
{
    let mut r: u128 = 0;
    let mut i: usize = 0;
    while i < 16
        invariant
            i <= 16,
            r == of_be(a@.take(i as int)),
        decreases 16 - i,
    {
        proof {
            let t = a@.take(i + 1);
            assert(t.drop_last() =~= a@.take(i as int));
            of_be_writes_back(t);
            lemma_pow256_grows((i + 1) as nat, 16);
            reveal_with_fuel(pow256, 17);
        }
        r = r * 256 + a[i] as u128;
        i += 1;
    }
    assert(a@.take(16) =~= a@);
    r
}

impl<V> View for Book<V> {
    type V = Map<Address, V>;

    open spec fn view(&self) -> Map<Address, V> {
        pages(self.entries@)
    }
}

/// The map that entries make.
pub open spec fn pages<V>(s: Seq<(Address, V)>) -> Map<Address, V> {
    Map::new(|a: Address| listed(s, a), |a: Address| s[spot(s, a)].1)
}

/// `a` has an entry.
pub open spec fn listed<V>(s: Seq<(Address, V)>, a: Address) -> bool {
    exists|i: int| 0 <= i < s.len() && (#[trigger] s[i]).0 == a
}

/// The entry of `a`.
pub open spec fn spot<V>(s: Seq<(Address, V)>, a: Address) -> int {
    choose|i: int| 0 <= i < s.len() && (#[trigger] s[i]).0 == a
}

/// An entry stands in the map under its address.
pub proof fn lemma_entry_stands<V>(s: Seq<(Address, V)>, i: int)
    requires
        in_order(s),
        0 <= i < s.len(),
    ensures
        pages(s).contains_key(s[i].0),
        pages(s)[s[i].0] == s[i].1,
{
    lemma_spot(s, i);
}

/// An entry is the one of its address.
proof fn lemma_spot<V>(s: Seq<(Address, V)>, i: int)
    requires
        in_order(s),
        0 <= i < s.len(),
    ensures
        listed(s, s[i].0),
        spot(s, s[i].0) == i,
        pages(s).contains_key(s[i].0),
        pages(s)[s[i].0] == s[i].1,
{
    assert(s[i].0 == s[i].0);
    let j = spot(s, s[i].0);
    assert(0 <= j < s.len() && s[j].0 == s[i].0);
    if j < i {
        assert(rank(s[j].0) < rank(s[i].0));
    } else if i < j {
        assert(rank(s[i].0) < rank(s[j].0));
    }
}

impl<V> Book<V> {
    /// Entries ascend by address, so each address stands once.
    pub open spec fn wf(&self) -> bool {
        in_order(self.entries@)
    }

    /// The map with nothing in it.
    pub fn new() -> (r: Book<V>)
        ensures
            r.wf(),
            r@ == Map::<Address, V>::empty(),
            r.entries@ == Seq::<(Address, V)>::empty(),
    {
        let r = Book { entries: Vec::new() };
        assert(r@ =~= Map::<Address, V>::empty());
        r
    }

    /// The index of the first entry not before `a`.
    fn place(&self, a: &Address) -> (p: usize)
        requires
            self.wf(),
        ensures
            p <= self.entries@.len(),
            forall|i: int| 0 <= i < p ==> rank((#[trigger] self.entries@[i]).0) < rank(*a),
            forall|i: int|
                p <= i < self.entries@.len() ==> rank(*a) <= rank((#[trigger] self.entries@[i]).0),
    {
        let r = rank_of(a);
        let mut p: usize = 0;
        while p < self.entries.len() && rank_of(&self.entries[p].0) < r
            invariant
                p <= self.entries@.len(),
                r == rank(*a),
                forall|i: int| 0 <= i < p ==> rank((#[trigger] self.entries@[i]).0) < rank(*a),
            decreases self.entries@.len() - p,
        {
            p += 1;
        }
        proof {
            assert forall|i: int| p <= i < self.entries@.len() implies rank(*a) <= rank(
                (#[trigger] self.entries@[i]).0,
            ) by {
                if i > p {
                    assert(rank(self.entries@[p as int].0) < rank(self.entries@[i].0));
                }
            }
        }
        p
    }

    /// The index of the entry of `a`.
    pub fn find(&self, a: &Address) -> (r: Option<usize>)
        requires
            self.wf(),
        ensures
            match r {
                Some(i) => i < self.entries@.len() && self.entries@[i as int].0 == *a
                    && self@.contains_key(*a) && self@[*a] == self.entries@[i as int].1,
                None => !self@.contains_key(*a),
            },
    {
        let p = self.place(a);
        if p < self.entries.len() && same_address(&self.entries[p].0, a) {
            proof {
                lemma_spot(self.entries@, p as int);
            }
            Some(p)
        } else {
            proof {
                if listed(self.entries@, *a) {
                    let j = spot(self.entries@, *a);
                    assert(self.entries@[j].0 == *a);
                    if j > p {
                        assert(rank(self.entries@[p as int].0) < rank(self.entries@[j].0));
                    }
                }
            }
            None
        }
    }

    /// What stands under `a`.
    pub fn get(&self, a: &Address) -> (r: Option<&V>)
        requires
            self.wf(),
        ensures
            match r {
                Some(v) => self@.contains_key(*a) && *v == self@[*a],
                None => !self@.contains_key(*a),
            },
    {
        match self.find(a) {
            Some(i) => Some(&self.entries[i].1),
            None => None,
        }
    }

    /// Whether something stands under `a`.
    pub fn contains(&self, a: &Address) -> (r: bool)
        requires
            self.wf(),
        ensures
            r == self@.contains_key(*a),
    {
        self.find(a).is_some()
    }

    /// Puts `v` under `a`, in place of what stood there.
    pub fn insert(&mut self, a: Address, v: V)
        requires
            old(self).wf(),
        ensures
            final(self).wf(),
            final(self)@ == old(self)@.insert(a, v),
            final(self).entries@.len() == old(self).entries@.len() + (if old(self)@.contains_key(
                a,
            ) {
                0int
            } else {
                1int
            }),
    {
        let ghost m = self@;
        let ghost s = self.entries@;
        let p = self.place(&a);
        if p < self.entries.len() && same_address(&self.entries[p].0, &a) {
            self.entries.set(p, (a, v));
            let ghost t = self.entries@;
            proof {
                assert(t == s.update(p as int, (a, v)));
                assert forall|i: int, j: int| 0 <= i < j < t.len() implies rank(
                    (#[trigger] t[i]).0,
                ) < rank((#[trigger] t[j]).0) by {
                    assert(s[i].0 == t[i].0 && s[j].0 == t[j].0);
                }
                lemma_entries_match(s, t, p as int, a, v);
                lemma_spot(s, p as int);
            }
        } else {
            self.entries.insert(p, (a, v));
            let ghost t = self.entries@;
            proof {
                assert(t == s.insert(p as int, (a, v)));
                assert forall|i: int| p <= i < s.len() implies rank(a) < rank(
                    (#[trigger] s[i]).0,
                ) by {
                    if rank(s[i].0) == rank(a) {
                        lemma_rank_unique(s[i].0, a);
                        if i > p {
                            assert(rank(s[p as int].0) < rank(s[i].0));
                        }
                    }
                }
                if listed(s, a) {
                    let i = spot(s, a);
                    assert(s[i].0 == a);
                    if i < p {
                        assert(rank(s[i].0) < rank(a));
                    }
                }
                assert forall|i: int, j: int| 0 <= i < j < t.len() implies rank(
                    (#[trigger] t[i]).0,
                ) < rank((#[trigger] t[j]).0) by {
                    let i0 = if i < p {
                        i
                    } else {
                        i - 1
                    };
                    let j0 = if j < p {
                        j
                    } else {
                        j - 1
                    };
                    if i != p && j != p {
                        assert(t[i] == s[i0] && t[j] == s[j0]);
                    } else if i == p {
                        assert(t[j] == s[j0]);
                    } else {
                        assert(t[i] == s[i]);
                    }
                }
                lemma_entries_match(s, t, p as int, a, v);
            }
        }
    }

    /// Takes out what stands under `a`.
    pub fn remove(&mut self, a: &Address) -> (r: Option<V>)
        requires
            old(self).wf(),
        ensures
            final(self).wf(),
            final(self)@ == old(self)@.remove(*a),
            final(self).entries@.len() == old(self).entries@.len() - (if old(self)@.contains_key(
                *a,
            ) {
                1int
            } else {
                0int
            }),
            match r {
                Some(v) => old(self)@.contains_key(*a) && v == old(self)@[*a],
                None => !old(self)@.contains_key(*a),
            },
    {
        match self.find(a) {
            Some(p) => {
                let ghost s = self.entries@;
                let e = self.entries.remove(p);
                let ghost t = self.entries@;
                proof {
                    assert(t == s.remove(p as int));
                    assert forall|i: int, j: int| 0 <= i < j < t.len() implies rank(
                        (#[trigger] t[i]).0,
                    ) < rank((#[trigger] t[j]).0) by {
                        let i0 = if i < p {
                            i
                        } else {
                            i + 1
                        };
                        let j0 = if j < p {
                            j
                        } else {
                            j + 1
                        };
                        assert(t[i] == s[i0] && t[j] == s[j0]);
                    }
                    assert forall|k: Address| pages(t).contains_key(k) <==> (pages(s).contains_key(k)
                        && k != *a) by {
                        if listed(t, k) {
                            let i = spot(t, k);
                            let i0 = if i < p {
                                i
                            } else {
                                i + 1
                            };
                            assert(s[i0].0 == k);
                            lemma_spot(s, i0);
                            lemma_spot(s, p as int);
                        }
                        if listed(s, k) && k != *a {
                            let i = spot(s, k);
                            let i1 = if i < p {
                                i
                            } else {
                                i - 1
                            };
                            assert(t[i1].0 == k);
                        }
                    }
                    assert forall|k: Address| #[trigger] pages(t).contains_key(k) implies pages(t)[k]
                        == pages(s)[k] by {
                        let i = spot(t, k);
                        assert(t[i].0 == k);
                        let i0 = if i < p {
                            i
                        } else {
                            i + 1
                        };
                        assert(s[i0] == t[i]);
                        lemma_spot(s, i0);
                    }
                    assert(pages(t) =~= pages(s).remove(*a));
                }
                Some(e.1)
            },
            None => {
                assert(self@ =~= self@.remove(*a));
                None
            },
        }
    }

    /// Puts `v` in place of what stands in the entry at `i`.
    pub fn replace_at(&mut self, i: usize, v: V)
        requires
            old(self).wf(),
            i < old(self).entries@.len(),
        ensures
            final(self).wf(),
            final(self).entries@ == old(self).entries@.update(
                i as int,
                (old(self).entries@[i as int].0, v),
            ),
            final(self)@ == old(self)@.insert(old(self).entries@[i as int].0, v),
    {
        let ghost s = self.entries@;
        let a = self.entries[i].0;
        self.entries.set(i, (a, v));
        proof {
            let t = self.entries@;
            assert(t =~= s.update(i as int, (a, v)));
            assert forall|x: int, y: int| 0 <= x < y < t.len() implies rank((#[trigger] t[x]).0)
                < rank((#[trigger] t[y]).0) by {
                assert(s[x].0 == t[x].0 && s[y].0 == t[y].0);
            }
            lemma_entries_match(s, t, i as int, a, v);
        }
    }

    pub fn len(&self) -> (r: usize)
        ensures
            r == self.entries@.len(),
    {
        self.entries.len()
    }
}

/// Entries that differ from `s` only by `v` under `a`, at `p`.
proof fn lemma_entries_match<V>(
    s: Seq<(Address, V)>,
    t: Seq<(Address, V)>,
    p: int,
    a: Address,
    v: V,
)
    requires
        in_order(s),
        in_order(t),
        0 <= p < t.len(),
        t[p] == (a, v),
        t == s.insert(p, (a, v)) || (t == s.update(p, (a, v)) && p < s.len() && s[p].0 == a),
        p <= s.len(),
    ensures
        pages(t) == pages(s).insert(a, v),
{
    lemma_spot(t, p);
    let shifted = t.len() > s.len();
    assert forall|k: Address| pages(t).contains_key(k) <==> (pages(s).contains_key(k) || k == a) by {
        if listed(t, k) && k != a {
            let i = spot(t, k);
            assert(t[i].0 == k);
            let i0 = if shifted && i > p {
                i - 1
            } else {
                i
            };
            assert(s[i0].0 == k);
        }
        if listed(s, k) {
            let i = spot(s, k);
            assert(s[i].0 == k);
            let i1 = if shifted && i >= p {
                i + 1
            } else {
                i
            };
            assert(t[i1].0 == k);
        }
    }
    assert forall|k: Address| #[trigger] pages(t).contains_key(k) && k != a implies pages(t)[k]
        == pages(s)[k] by {
        let i = spot(t, k);
        assert(t[i].0 == k);
        let i0 = if shifted && i > p {
            i - 1
        } else {
            i
        };
        assert(s[i0] == t[i]);
        lemma_spot(s, i0);
    }
    assert(pages(t) =~= pages(s).insert(a, v));
}

} // verus!
