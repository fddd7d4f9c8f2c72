//! A balance table: unsigned amounts keyed by a pair of identifiers,
//! with an absent key holding zero.
//!
//! One table stands for each kind of holding account the ledger keeps
//! for the marketplace: payment balances, asset holdings, escrow
//! vaults and reward balances. The representation is a vector of
//! slots with pairwise-distinct keys; the model is the total function
//! [`BalanceTable::balance`].

use vstd::prelude::*;
use vstd::pervasive::VecAdditionalExecFns;

verus! {

/// One slot of a balance table.
#[derive(Clone, Copy)]
pub struct Slot {
    pub key_a: u64,
    pub key_b: u64,
    pub amount: u64,
}

/// Whether `c` is the slot for key `(a, b)`.
pub open spec fn is_key(c: Slot, a: u64, b: u64) -> bool {
    c.key_a == a && c.key_b == b
}

/// The amount held under `(a, b)` in `s`: the amount of the first
/// matching slot, or zero when none matches.
pub open spec fn amount_in(s: Seq<Slot>, a: u64, b: u64) -> u64
    decreases s.len(),
{
    if s.len() == 0 {
        0u64
    } else if is_key(s[0], a, b) {
        s[0].amount
    } else {
        amount_in(s.drop_first(), a, b)
    }
}

/// A key that no slot carries holds zero.
proof fn lemma_amount_absent(s: Seq<Slot>, a: u64, b: u64)
    requires
        forall|j: int| 0 <= j < s.len() ==> !is_key(s[j], a, b),
    ensures
        amount_in(s, a, b) == 0,
    decreases s.len(),
{
    if s.len() > 0 {
        assert(forall|j: int| 0 <= j < s.drop_first().len() ==> s.drop_first()[j] == s[j + 1]);
        lemma_amount_absent(s.drop_first(), a, b);
    }
}

/// The first slot that carries a key decides the amount held under it.
proof fn lemma_amount_first(s: Seq<Slot>, a: u64, b: u64, i: int)
    requires
        0 <= i < s.len(),
        is_key(s[i], a, b),
        forall|j: int| 0 <= j < i ==> !is_key(s[j], a, b),
    ensures
        amount_in(s, a, b) == s[i].amount,
    decreases i,
{
    if i > 0 {
        assert(forall|j: int| 0 <= j < s.drop_first().len() ==> s.drop_first()[j] == s[j + 1]);
        lemma_amount_first(s.drop_first(), a, b, i - 1);
    }
}

/// Overwriting the amount of the first slot that carries a key changes
/// exactly that key's amount.
proof fn lemma_amount_update(s: Seq<Slot>, i: int, v: u64)
    requires
        0 <= i < s.len(),
        forall|j: int| 0 <= j < i ==> !is_key(s[j], s[i].key_a, s[i].key_b),
    ensures
        forall|a2: u64, b2: u64|
            amount_in(s.update(i, Slot { key_a: s[i].key_a, key_b: s[i].key_b, amount: v }), a2, b2)
                == if is_key(s[i], a2, b2) {
                    v
                } else {
                    amount_in(s, a2, b2)
                },
    decreases i,
{
    let c = Slot { key_a: s[i].key_a, key_b: s[i].key_b, amount: v };
    let t = s.update(i, c);
    if i == 0 {
        assert(t.drop_first() =~= s.drop_first());
        assert forall|a2: u64, b2: u64|
            amount_in(t, a2, b2) == if is_key(s[0], a2, b2) {
                v
            } else {
                amount_in(s, a2, b2)
            } by {
            if !is_key(s[0], a2, b2) {
                assert(amount_in(t, a2, b2) == amount_in(t.drop_first(), a2, b2));
            }
        }
    } else {
        assert(t.drop_first() =~= s.drop_first().update(i - 1, c));
        assert(s.drop_first()[i - 1] == s[i]);
        assert(forall|j: int| 0 <= j < s.drop_first().len() ==> s.drop_first()[j] == s[j + 1]);
        lemma_amount_update(s.drop_first(), i - 1, v);
        assert forall|a2: u64, b2: u64|
            amount_in(t, a2, b2) == if is_key(s[i], a2, b2) {
                v
            } else {
                amount_in(s, a2, b2)
            } by {
            assert(t[0] == s[0]);
            if is_key(s[0], a2, b2) {
            } else {
                assert(amount_in(t, a2, b2) == amount_in(t.drop_first(), a2, b2));
                assert(amount_in(s, a2, b2) == amount_in(s.drop_first(), a2, b2));
            }
        }
    }
}

/// Appending a slot for a key that no slot carries gives that key its
/// amount and leaves every other key's amount unchanged.
proof fn lemma_amount_push(s: Seq<Slot>, c: Slot)
    requires
        forall|j: int| 0 <= j < s.len() ==> !is_key(s[j], c.key_a, c.key_b),
    ensures
        forall|a2: u64, b2: u64|
            amount_in(s.push(c), a2, b2) == if is_key(c, a2, b2) {
                c.amount
            } else {
                amount_in(s, a2, b2)
            },
    decreases s.len(),
{
    let t = s.push(c);
    if s.len() == 0 {
        assert forall|a2: u64, b2: u64|
            amount_in(t, a2, b2) == if is_key(c, a2, b2) {
                c.amount
            } else {
                amount_in(s, a2, b2)
            } by {
            assert(t[0] == c);
            if !is_key(c, a2, b2) {
                assert(t.drop_first() =~= Seq::<Slot>::empty());
                assert(amount_in(t, a2, b2) == amount_in(t.drop_first(), a2, b2));
            }
        }
    } else {
        assert(t.drop_first() =~= s.drop_first().push(c));
        assert(forall|j: int| 0 <= j < s.drop_first().len() ==> s.drop_first()[j] == s[j + 1]);
        lemma_amount_push(s.drop_first(), c);
        assert forall|a2: u64, b2: u64|
            amount_in(t, a2, b2) == if is_key(c, a2, b2) {
                c.amount
            } else {
                amount_in(s, a2, b2)
            } by {
            assert(t[0] == s[0]);
            if is_key(s[0], a2, b2) {
            } else {
                assert(amount_in(t, a2, b2) == amount_in(t.drop_first(), a2, b2));
                assert(amount_in(s, a2, b2) == amount_in(s.drop_first(), a2, b2));
            }
        }
    }
}

/// A table of unsigned amounts keyed by pairs of identifiers. Every
/// key not stored holds zero; stored keys are pairwise distinct.
pub struct BalanceTable {
    slots: Vec<Slot>,
}

impl BalanceTable {
    /// The amount the table holds under `(a, b)`.
    pub closed spec fn balance(self, a: u64, b: u64) -> u64 {
        amount_in(self.slots@, a, b)
    }

    /// Representation invariant: no two slots carry the same key.
    pub closed spec fn wf(self) -> bool {
        forall|i: int, j: int|
            0 <= i < j < self.slots@.len()
                ==> !is_key(self.slots@[i], self.slots@[j].key_a, self.slots@[j].key_b)
    }

    /// An empty table: every key holds zero.
    pub fn new() -> (r: BalanceTable)
        ensures
            r.wf(),
            forall|a: u64, b: u64| r.balance(a, b) == 0,
    {
        BalanceTable { slots: Vec::new() }
    }

    /// Index of the slot carrying `(a, b)`, when one exists.
    fn find_index(&self, a: u64, b: u64) -> (r: Option<usize>)
        ensures
            match r {
                Some(i) => {
                    &&& i < self.slots@.len()
                    &&& is_key(self.slots@[i as int], a, b)
                    &&& forall|j: int| 0 <= j < i ==> !is_key(self.slots@[j], a, b)
                },
                None => forall|j: int| 0 <= j < self.slots@.len() ==> !is_key(self.slots@[j], a, b),
            },
    {
        let n: usize = self.slots.len();
        let mut i: usize = 0;
        while i < n
            invariant
                n == self.slots@.len(),
                i <= n,
                forall|j: int| 0 <= j < i ==> !is_key(self.slots@[j], a, b),
            decreases n - i,
        {
            if self.slots[i].key_a == a && self.slots[i].key_b == b {
                return Some(i);
            }
            i = i + 1;
        }
        None
    }

    /// Reads the amount held under `(a, b)`.
    pub fn lookup(&self, a: u64, b: u64) -> (r: u64)
        ensures
            r == self.balance(a, b),
    {
        match self.find_index(a, b) {
            Some(i) => {
                proof {
                    lemma_amount_first(self.slots@, a, b, i as int);
                }
                self.slots[i].amount
            },
            None => {
                proof {
                    lemma_amount_absent(self.slots@, a, b);
                }
                0
            },
        }
    }

    /// Sets the amount held under `(a, b)` to `v`, leaving every other
    /// key's amount unchanged.
    pub fn store(&mut self, a: u64, b: u64, v: u64)
        requires
            old(self).wf(),
        ensures
            final(self).wf(),
            forall|a2: u64, b2: u64|
                final(self).balance(a2, b2) == if a2 == a && b2 == b {
                    v
                } else {
                    old(self).balance(a2, b2)
                },
    {
        let ghost s0 = self.slots@;
        match self.find_index(a, b) {
            Some(i) => {
                proof {
                    lemma_amount_update(s0, i as int, v);
                }
                self.slots.set(i, Slot { key_a: a, key_b: b, amount: v });
                proof {
                    assert(forall|j: int|
                        0 <= j < s0.len() && j != i ==> self.slots@[j] == s0[j]);
                }
            },
            None => {
                proof {
                    lemma_amount_push(s0, Slot { key_a: a, key_b: b, amount: v });
                }
                self.slots.push(Slot { key_a: a, key_b: b, amount: v });
            },
        }
    }
}

} // verus!
