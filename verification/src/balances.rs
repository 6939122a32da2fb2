//! The reservation gateway: per-account free and reserved balances, and the
//! `reserve` operation that either moves the stake or fails without effect.

use vstd::prelude::*;

use crate::assoc::assoc_find_u64;
use crate::assoc::assoc_has;
use crate::assoc::assoc_unique;
use crate::assoc::assoc_val;
use crate::assoc::lemma_assoc_at;
use crate::assoc::lemma_assoc_push;
use crate::assoc::lemma_assoc_update;

verus! {

/// Per-account balances: each entry is `(account, (free, reserved))`.
pub struct Balances {
    pub accounts: Vec<(u64, (u64, u64))>,
}

impl Balances {
    /// Accounts appear once, and no account's total balance overflows.
    pub open spec fn wf(self) -> bool {
        &&& assoc_unique(self.accounts@)
        &&& forall|i: int|
            0 <= i < self.accounts@.len() ==> (#[trigger] self.accounts@[i]).1.0 + self.accounts@[i].1.1
                <= u64::MAX
    }

    /// The free balance of `who`; accounts never endowed hold zero.
    pub open spec fn free_of(self, who: u64) -> u64 {
        match assoc_val(self.accounts@, who) {
            Some(b) => b.0,
            None => 0,
        }
    }

    /// The reserved balance of `who`.
    pub open spec fn reserved_of(self, who: u64) -> u64 {
        match assoc_val(self.accounts@, who) {
            Some(b) => b.1,
            None => 0,
        }
    }

    pub fn new() -> (b: Balances)
        ensures
            b.wf(),
            forall|w: u64| b.free_of(w) == 0 && b.reserved_of(w) == 0,
    {
        Balances { accounts: Vec::new() }
    }

    /// Set the free balance of `who` to `amount`, clearing its reserve.
    pub fn endow(&mut self, who: u64, amount: u64)
        requires
            old(self).wf(),
        ensures
            final(self).wf(),
            final(self).free_of(who) == amount,
            final(self).reserved_of(who) == 0,
            forall|w: u64|
                w != who ==> final(self).free_of(w) == old(self).free_of(w)
                    && final(self).reserved_of(w) == old(self).reserved_of(w),
    {
        match assoc_find_u64(&self.accounts, who) {
            Some(i) => {
                let ghost pre = self.accounts@;
                self.accounts[i] = (who, (amount, 0));
                proof {
                    assert forall|w: u64| w != who implies final(self).free_of(w) == old(
                        self,
                    ).free_of(w) && final(self).reserved_of(w) == old(self).reserved_of(w) by {
                        lemma_assoc_update(pre, i as int, who, (amount, 0u64), w);
                    }
                    lemma_assoc_update(pre, i as int, who, (amount, 0u64), who);
                    assert forall|j: int|
                        0 <= j < self.accounts@.len() implies (#[trigger] self.accounts@[j]).1.0
                        + self.accounts@[j].1.1 <= u64::MAX by {
                        if j != i {
                            assert(self.accounts@[j] == pre[j]);
                        }
                    }
                }
            },
            None => {
                let ghost pre = self.accounts@;
                self.accounts.push((who, (amount, 0)));
                proof {
                    assert forall|w: u64| w != who implies final(self).free_of(w) == old(
                        self,
                    ).free_of(w) && final(self).reserved_of(w) == old(self).reserved_of(w) by {
                        lemma_assoc_push(pre, who, (amount, 0u64), w);
                    }
                    lemma_assoc_push(pre, who, (amount, 0u64), who);
                    assert forall|j: int|
                        0 <= j < self.accounts@.len() implies (#[trigger] self.accounts@[j]).1.0
                        + self.accounts@[j].1.1 <= u64::MAX by {
                        if j < pre.len() {
                            assert(self.accounts@[j] == pre[j]);
                        }
                    }
                }
            },
        }
    }

    pub fn free_balance(&self, who: u64) -> (r: u64)
        requires
            self.wf(),
        ensures
            r == self.free_of(who),
    {
        match assoc_find_u64(&self.accounts, who) {
            Some(i) => {
                proof {
                    lemma_assoc_at(self.accounts@, who, i as int);
                }
                self.accounts[i].1.0
            },
            None => 0,
        }
    }

    pub fn reserved_balance(&self, who: u64) -> (r: u64)
        requires
            self.wf(),
        ensures
            r == self.reserved_of(who),
    {
        match assoc_find_u64(&self.accounts, who) {
            Some(i) => {
                proof {
                    lemma_assoc_at(self.accounts@, who, i as int);
                }
                self.accounts[i].1.1
            },
            None => 0,
        }
    }

    /// Move `amount` from `who`'s free balance to its reserved balance, or
    /// fail, changing nothing, when the free balance does not cover it.
    pub fn reserve(&mut self, who: u64, amount: u64) -> (r: bool)
        requires
            old(self).wf(),
        ensures
            final(self).wf(),
            r == (amount <= old(self).free_of(who)),
            r ==> final(self).free_of(who) == old(self).free_of(who) - amount
                && final(self).reserved_of(who) == old(self).reserved_of(who) + amount,
            !r ==> *final(self) == *old(self),
            forall|w: u64|
                w != who ==> final(self).free_of(w) == old(self).free_of(w)
                    && final(self).reserved_of(w) == old(self).reserved_of(w),
    {
        match assoc_find_u64(&self.accounts, who) {
            Some(i) => {
                proof {
                    lemma_assoc_at(self.accounts@, who, i as int);
                }
                let (free, reserved) = self.accounts[i].1;
                if amount <= free {
                    let ghost pre = self.accounts@;
                    self.accounts[i] = (who, (free - amount, reserved + amount));
                    proof {
                        assert forall|w: u64| w != who implies final(self).free_of(w) == old(
                            self,
                        ).free_of(w) && final(self).reserved_of(w) == old(self).reserved_of(w) by {
                            lemma_assoc_update(
                                pre,
                                i as int,
                                who,
                                ((free - amount) as u64, (reserved + amount) as u64),
                                w,
                            );
                        }
                        lemma_assoc_update(
                            pre,
                            i as int,
                            who,
                            ((free - amount) as u64, (reserved + amount) as u64),
                            who,
                        );
                        assert forall|j: int|
                            0 <= j < self.accounts@.len() implies (#[trigger] self.accounts@[j]).1.0
                            + self.accounts@[j].1.1 <= u64::MAX by {
                            if j != i {
                                assert(self.accounts@[j] == pre[j]);
                            }
                        }
                    }
                    true
                } else {
                    false
                }
            },
            None => {
                proof {
                    if assoc_has(self.accounts@, who) {
                        assert(false);
                    }
                }
                amount == 0
            },
        }
    }
}

} // verus!
