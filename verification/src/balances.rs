use vstd::prelude::*;

use crate::address::Address;

verus! {

/// The amount recorded for `a` in a list of (holder, amount) records; the last
/// record for a holder wins, and a holder without a record has 0.
pub closed spec fn recorded(s: Seq<(Address, u32)>, a: Seq<char>) -> nat
    decreases s.len(),
{
    if s.len() == 0 {
        0
    } else if s.last().0@ == a {
        s.last().1 as nat
    } else {
        recorded(s.drop_last(), a)
    }
}

/// The sum of all amounts in a list of records.
pub closed spec fn recorded_sum(s: Seq<(Address, u32)>) -> nat
    decreases s.len(),
{
    if s.len() == 0 {
        0
    } else {
        recorded_sum(s.drop_last()) + s.last().1 as nat
    }
}

/// No holder has two records.
pub closed spec fn holders_distinct(s: Seq<(Address, u32)>) -> bool {
    forall|i: int, j: int|
        0 <= i < s.len() && 0 <= j < s.len() && i != j ==> #[trigger] s[i].0@ != #[trigger] s[j].0@
}

proof fn lemma_recorded_absent(s: Seq<(Address, u32)>, a: Seq<char>)
    requires
        forall|i: int| 0 <= i < s.len() ==> #[trigger] s[i].0@ != a,
    ensures
        recorded(s, a) == 0,
    decreases s.len(),
{
    if s.len() > 0 {
        assert(s.last() == s[s.len() - 1]);
        lemma_recorded_absent(s.drop_last(), a);
    }
}

proof fn lemma_recorded_at(s: Seq<(Address, u32)>, i: int)
    requires
        holders_distinct(s),
        0 <= i < s.len(),
    ensures
        recorded(s, s[i].0@) == s[i].1 as nat,
    decreases s.len(),
{
    if i < s.len() - 1 {
        let t = s.drop_last();
        assert(s.last() == s[s.len() - 1]);
        assert(s[s.len() - 1].0@ != s[i].0@);
        assert(t[i] == s[i]);
        assert(holders_distinct(t)) by {
            assert forall|p: int, q: int|
                0 <= p < t.len() && 0 <= q < t.len() && p != q implies #[trigger] t[p].0@
                != #[trigger] t[q].0@ by {
                assert(t[p] == s[p] && t[q] == s[q]);
            }
        }
        lemma_recorded_at(t, i);
    }
}

proof fn lemma_recorded_push(s: Seq<(Address, u32)>, e: (Address, u32), a: Seq<char>)
    ensures
        recorded(s.push(e), a) == if a == e.0@ {
            e.1 as nat
        } else {
            recorded(s, a)
        },
        recorded_sum(s.push(e)) == recorded_sum(s) + e.1 as nat,
{
    assert(s.push(e).drop_last() =~= s);
}

proof fn lemma_recorded_update(s: Seq<(Address, u32)>, i: int, e: (Address, u32), a: Seq<char>)
    requires
        holders_distinct(s),
        0 <= i < s.len(),
        e.0@ == s[i].0@,
    ensures
        recorded(s.update(i, e), a) == if a == e.0@ {
            e.1 as nat
        } else {
            recorded(s, a)
        },
        recorded_sum(s.update(i, e)) + s[i].1 as nat == recorded_sum(s) + e.1 as nat,
    decreases s.len(),
{
    let u = s.update(i, e);
    assert(s.last() == s[s.len() - 1]);
    assert(u.last() == u[u.len() - 1]);
    if i == s.len() - 1 {
        assert(u.drop_last() =~= s.drop_last());
    } else {
        let t = s.drop_last();
        assert(u.drop_last() =~= t.update(i, e));
        assert(t[i] == s[i]);
        assert(holders_distinct(t)) by {
            assert forall|p: int, q: int|
                0 <= p < t.len() && 0 <= q < t.len() && p != q implies #[trigger] t[p].0@
                != #[trigger] t[q].0@ by {
                assert(t[p] == s[p] && t[q] == s[q]);
            }
        }
        assert(s[s.len() - 1].0@ != s[i].0@);
        lemma_recorded_update(t, i, e, a);
    }
}

/// A ledger of amounts per holder, as a list of records with at most one record
/// per holder.
pub struct BalanceBook {
    entries: Vec<(Address, u32)>,
}

impl BalanceBook {
    /// Every holder has at most one record.
    pub closed spec fn well_formed(&self) -> bool {
        holders_distinct(self.entries@)
    }

    /// The amount recorded for `a`, or 0 where `a` has no record.
    pub closed spec fn amount(&self, a: Seq<char>) -> nat {
        recorded(self.entries@, a)
    }

    /// The sum of all recorded amounts.
    pub closed spec fn total(&self) -> nat {
        recorded_sum(self.entries@)
    }

    /// A book without records.
    pub fn new() -> (b: BalanceBook)
        ensures
            b.well_formed(),
            forall|a: Seq<char>| b.amount(a) == 0,
            b.total() == 0,
    {
        let b = BalanceBook { entries: Vec::new() };
        assert forall|a: Seq<char>| b.amount(a) == 0 by {
            lemma_recorded_absent(b.entries@, a);
        }
        b
    }

    fn find(&self, a: &Address) -> (r: Option<usize>)
        ensures
            match r {
                Some(i) => i < self.entries@.len() && self.entries@[i as int].0@ == a@,
                None => forall|i: int|
                    0 <= i < self.entries@.len() ==> #[trigger] self.entries@[i].0@ != a@,
            },
    {
        let n = self.entries.len();
        for i in 0..n
            invariant
                n == self.entries@.len(),
                forall|j: int| 0 <= j < i ==> #[trigger] self.entries@[j].0@ != a@,
        {
            if self.entries[i].0.same_as(a) {
                return Some(i);
            }
        }
        None
    }

    /// The amount recorded for `a`.
    pub fn get(&self, a: &Address) -> (v: u32)
        requires
            self.well_formed(),
        ensures
            v as nat == self.amount(a@),
    {
        match self.find(a) {
            Some(i) => {
                proof {
                    lemma_recorded_at(self.entries@, i as int);
                }
                self.entries[i].1
            },
            None => {
                proof {
                    lemma_recorded_absent(self.entries@, a@);
                }
                0
            },
        }
    }

    /// Records `v` as the amount of `a`.
    pub fn set(&mut self, a: &Address, v: u32)
        requires
            old(self).well_formed(),
        ensures
            final(self).well_formed(),
            forall|b: Seq<char>| #[trigger]
                final(self).amount(b) == if b == a@ {
                    v as nat
                } else {
                    old(self).amount(b)
                },
            final(self).total() + old(self).amount(a@) == old(self).total() + v,
    {
        let ghost s = self.entries@;
        match self.find(a) {
            Some(i) => {
                let e = (a.copy(), v);
                self.entries.set(i, e);
                proof {
                    assert(self.entries@ == s.update(i as int, e));
                    lemma_recorded_at(s, i as int);
                    assert forall|b: Seq<char>| #[trigger]
                        recorded(self.entries@, b) == if b == a@ {
                            v as nat
                        } else {
                            recorded(s, b)
                        } by {
                        lemma_recorded_update(s, i as int, e, b);
                    }
                    lemma_recorded_update(s, i as int, e, a@);
                    assert(holders_distinct(self.entries@)) by {
                        assert forall|p: int, q: int|
                            0 <= p < self.entries@.len() && 0 <= q < self.entries@.len() && p
                                != q implies #[trigger] self.entries@[p].0@
                            != #[trigger] self.entries@[q].0@ by {
                            if p != i && q != i {
                                assert(s[p] == self.entries@[p] && s[q] == self.entries@[q]);
                            } else if p == i {
                                assert(s[q] == self.entries@[q]);
                            } else {
                                assert(s[p] == self.entries@[p]);
                            }
                        }
                    }
                }
            },
            None => {
                let e = (a.copy(), v);
                self.entries.push(e);
                proof {
                    assert(self.entries@ == s.push(e));
                    lemma_recorded_absent(s, a@);
                    assert forall|b: Seq<char>| #[trigger]
                        recorded(self.entries@, b) == if b == a@ {
                            v as nat
                        } else {
                            recorded(s, b)
                        } by {
                        lemma_recorded_push(s, e, b);
                    }
                    lemma_recorded_push(s, e, a@);
                    assert(holders_distinct(self.entries@)) by {
                        assert forall|p: int, q: int|
                            0 <= p < self.entries@.len() && 0 <= q < self.entries@.len() && p
                                != q implies #[trigger] self.entries@[p].0@
                            != #[trigger] self.entries@[q].0@ by {
                            if p < s.len() && q < s.len() {
                                assert(s[p] == self.entries@[p] && s[q] == self.entries@[q]);
                            } else if p < s.len() {
                                assert(s[p] == self.entries@[p]);
                            } else {
                                assert(s[q] == self.entries@[q]);
                            }
                        }
                    }
                }
            },
        }
    }
}

} // verus!
