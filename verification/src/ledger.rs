//! The multi-asset ledger: free and reserved balances keyed by
//! `(currency, account)`. `reserve` moves free funds into the reserved
//! portion, `unreserve` reverses it (clamping when asked for more than is
//! reserved), and `transfer` moves free funds between accounts.

use vstd::prelude::*;
use crate::store::Store;
use crate::types::{CurrencyId, Error};

verus! {

/// The free and reserved portions of one `(currency, account)` slot.
#[derive(Clone, Copy, Debug, PartialEq, Eq, Structural)]
pub struct AccountBalance {
    pub free: u128,
    pub reserved: u128,
}

pub open spec fn zero_balance() -> AccountBalance {
    AccountBalance { free: 0, reserved: 0 }
}

/// How much an `unreserve` of `amount` actually releases: at most the
/// reserved portion, and never past the free portion's capacity.
pub open spec fn unreserve_released(b: AccountBalance, amount: u128) -> u128 {
    let m = if amount <= b.reserved {
        amount
    } else {
        b.reserved
    };
    if b.free + m <= u128::MAX {
        m
    } else {
        (u128::MAX - b.free) as u128
    }
}

/// The store key of a registered-currency slot; injective in `(h, a)`.
pub open spec fn reg_key(h: u64, a: u64) -> u128 {
    ((h as int) * 0x10000000000000000 + a as int) as u128
}

proof fn lemma_reg_key_injective(h: u64, a: u64, h2: u64, a2: u64)
    requires
        reg_key(h, a) == reg_key(h2, a2),
    ensures
        h == h2 && a == a2,
{
    assert(h == h2 && a == a2) by (nonlinear_arith)
        requires
            (h as int) * 0x10000000000000000 + a as int == (h2 as int) * 0x10000000000000000
                + a2 as int,
            0 <= h as int <= 0xffffffffffffffff,
            0 <= h2 as int <= 0xffffffffffffffff,
            0 <= a as int <= 0xffffffffffffffff,
            0 <= a2 as int <= 0xffffffffffffffff,
    ;
}

pub struct Ledger {
    native: Store<AccountBalance>,
    registered: Store<AccountBalance>,
}

/// The relation between a ledger and its state after an `unreserve`.
pub open spec fn unreserve_rel(
    pre: Ledger,
    c: CurrencyId,
    a: u64,
    amount: u128,
    post: Ledger,
) -> bool {
    let released = unreserve_released(pre.bal(c, a), amount);
    &&& post.bal(c, a) == (AccountBalance {
        free: (pre.free_of(c, a) + released) as u128,
        reserved: (pre.reserved_of(c, a) - released) as u128,
    })
    &&& pre.same_except(post, c, a)
}

/// The relation between a ledger and its state after a successful
/// `transfer`.
pub open spec fn transfer_rel(
    pre: Ledger,
    c: CurrencyId,
    from: u64,
    to: u64,
    amount: u128,
    post: Ledger,
) -> bool {
    if from != to {
        &&& post.bal(c, from) == (AccountBalance {
            free: (pre.free_of(c, from) - amount) as u128,
            reserved: pre.reserved_of(c, from),
        })
        &&& post.bal(c, to) == (AccountBalance {
            free: (pre.free_of(c, to) + amount) as u128,
            reserved: pre.reserved_of(c, to),
        })
        &&& pre.same_except2(post, c, from, to)
    } else {
        post == pre
    }
}

impl Ledger {
    /// The slot of `(c, a)`: absent slots hold zero.
    pub closed spec fn bal(self, c: CurrencyId, a: u64) -> AccountBalance {
        match c {
            CurrencyId::Native => {
                if self.native@.contains_key(a as u128) {
                    self.native@[a as u128]
                } else {
                    zero_balance()
                }
            },
            CurrencyId::Registered(h) => {
                if self.registered@.contains_key(reg_key(h, a)) {
                    self.registered@[reg_key(h, a)]
                } else {
                    zero_balance()
                }
            },
        }
    }

    pub open spec fn free_of(self, c: CurrencyId, a: u64) -> u128 {
        self.bal(c, a).free
    }

    pub open spec fn reserved_of(self, c: CurrencyId, a: u64) -> u128 {
        self.bal(c, a).reserved
    }

    /// All slots other than `(c, a)` agree between `self` and `other`.
    pub open spec fn same_except(self, other: Ledger, c: CurrencyId, a: u64) -> bool {
        forall|c2: CurrencyId, a2: u64|
            !(c2 == c && a2 == a) ==> #[trigger] other.bal(c2, a2) == self.bal(c2, a2)
    }

    /// All slots other than `(c, a)` and `(c, a2)` agree.
    pub open spec fn same_except2(self, other: Ledger, c: CurrencyId, a: u64, a2: u64) -> bool {
        forall|c3: CurrencyId, a3: u64|
            !(c3 == c && (a3 == a || a3 == a2)) ==> #[trigger] other.bal(c3, a3) == self.bal(c3, a3)
    }

    pub fn new() -> (l: Ledger)
        ensures
            forall|c: CurrencyId, a: u64| #[trigger] l.bal(c, a) == zero_balance(),
    {
        Ledger { native: Store::new(), registered: Store::new() }
    }

    fn get_slot(&self, c: CurrencyId, a: u64) -> (b: AccountBalance)
        ensures
            b == self.bal(c, a),
    {
        let r = match c {
            CurrencyId::Native => self.native.get(a as u128),
            CurrencyId::Registered(h) => {
                let k: u128 = (h as u128) * 0x10000000000000000 + (a as u128);
                assert(k == reg_key(h, a));
                self.registered.get(k)
            },
        };
        match r {
            Some(b) => *b,
            None => AccountBalance { free: 0, reserved: 0 },
        }
    }

    fn set_slot(&mut self, c: CurrencyId, a: u64, b: AccountBalance)
        ensures
            final(self).bal(c, a) == b,
            old(self).same_except(*final(self), c, a),
    {
        match c {
            CurrencyId::Native => {
                self.native.insert(a as u128, b);
            },
            CurrencyId::Registered(h) => {
                let k: u128 = (h as u128) * 0x10000000000000000 + (a as u128);
                assert(k == reg_key(h, a));
                self.registered.insert(k, b);
            },
        }
        proof {
            assert forall|c2: CurrencyId, a2: u64|
                !(c2 == c && a2 == a) implies #[trigger] final(self).bal(c2, a2) == old(self).bal(
                c2,
                a2,
            ) by {
                match (c, c2) {
                    (CurrencyId::Registered(h), CurrencyId::Registered(h2)) => {
                        if reg_key(h, a) == reg_key(h2, a2) {
                            lemma_reg_key_injective(h, a, h2, a2);
                        }
                    },
                    _ => {},
                }
            }
        }
    }

    pub fn free_balance(&self, c: CurrencyId, a: u64) -> (r: u128)
        ensures
            r == self.free_of(c, a),
    {
        self.get_slot(c, a).free
    }

    pub fn reserved_balance(&self, c: CurrencyId, a: u64) -> (r: u128)
        ensures
            r == self.reserved_of(c, a),
    {
        self.get_slot(c, a).reserved
    }

    /// Mints `amount` of `c` into `a`'s free balance.
    pub fn deposit(&mut self, c: CurrencyId, a: u64, amount: u128) -> (r: Result<(), Error>)
        ensures
            r.is_ok() == (old(self).free_of(c, a) + amount <= u128::MAX),
            r.is_ok() ==> {
                &&& final(self).bal(c, a) == (AccountBalance {
                    free: (old(self).free_of(c, a) + amount) as u128,
                    reserved: old(self).reserved_of(c, a),
                })
                &&& old(self).same_except(*final(self), c, a)
            },
            !r.is_ok() ==> *final(self) == *old(self) && r == Result::<(), Error>::Err(
                Error::Overflow,
            ),
    {
        let b = self.get_slot(c, a);
        if amount > u128::MAX - b.free {
            return Err(Error::Overflow);
        }
        self.set_slot(c, a, AccountBalance { free: b.free + amount, reserved: b.reserved });
        Ok(())
    }

    /// Moves `amount` of `a`'s free balance into the reserved portion.
    pub fn reserve(&mut self, c: CurrencyId, a: u64, amount: u128) -> (r: Result<(), Error>)
        ensures
            r.is_ok() == (old(self).free_of(c, a) >= amount && old(self).reserved_of(c, a) + amount
                <= u128::MAX),
            r.is_ok() ==> {
                &&& final(self).bal(c, a) == (AccountBalance {
                    free: (old(self).free_of(c, a) - amount) as u128,
                    reserved: (old(self).reserved_of(c, a) + amount) as u128,
                })
                &&& old(self).same_except(*final(self), c, a)
            },
            !r.is_ok() ==> {
                &&& *final(self) == *old(self)
                &&& r == Result::<(), Error>::Err(
                    if old(self).free_of(c, a) < amount {
                        Error::InsufficientBalance
                    } else {
                        Error::Overflow
                    },
                )
            },
    {
        let b = self.get_slot(c, a);
        if b.free < amount {
            return Err(Error::InsufficientBalance);
        }
        if amount > u128::MAX - b.reserved {
            return Err(Error::Overflow);
        }
        self.set_slot(c, a, AccountBalance { free: b.free - amount, reserved: b.reserved + amount });
        Ok(())
    }

    /// Releases up to `amount` of `a`'s reserved balance back to free;
    /// infallible, clamping at what is actually reserved. Returns how much
    /// was released.
    pub fn unreserve(&mut self, c: CurrencyId, a: u64, amount: u128) -> (released: u128)
        ensures
            released == unreserve_released(old(self).bal(c, a), amount),
            final(self).bal(c, a) == (AccountBalance {
                free: (old(self).free_of(c, a) + released) as u128,
                reserved: (old(self).reserved_of(c, a) - released) as u128,
            }),
            old(self).same_except(*final(self), c, a),
    {
        let b = self.get_slot(c, a);
        let mut m = if amount <= b.reserved {
            amount
        } else {
            b.reserved
        };
        if m > u128::MAX - b.free {
            m = u128::MAX - b.free;
        }
        self.set_slot(c, a, AccountBalance { free: b.free + m, reserved: b.reserved - m });
        m
    }

    /// Moves `amount` of `c` from `from`'s free balance to `to`'s.
    pub fn transfer(&mut self, c: CurrencyId, from: u64, to: u64, amount: u128) -> (r: Result<
        (),
        Error,
    >)
        ensures
            r.is_ok() == (old(self).free_of(c, from) >= amount && (from != to ==> old(
                self,
            ).free_of(c, to) + amount <= u128::MAX)),
            r.is_ok() && from != to ==> {
                &&& final(self).bal(c, from) == (AccountBalance {
                    free: (old(self).free_of(c, from) - amount) as u128,
                    reserved: old(self).reserved_of(c, from),
                })
                &&& final(self).bal(c, to) == (AccountBalance {
                    free: (old(self).free_of(c, to) + amount) as u128,
                    reserved: old(self).reserved_of(c, to),
                })
                &&& old(self).same_except2(*final(self), c, from, to)
            },
            r.is_ok() && from == to ==> *final(self) == *old(self),
            !r.is_ok() ==> {
                &&& *final(self) == *old(self)
                &&& r == Result::<(), Error>::Err(
                    if old(self).free_of(c, from) < amount {
                        Error::InsufficientBalance
                    } else {
                        Error::Overflow
                    },
                )
            },
    {
        let bf = self.get_slot(c, from);
        if bf.free < amount {
            return Err(Error::InsufficientBalance);
        }
        if from == to {
            return Ok(());
        }
        let bt = self.get_slot(c, to);
        if amount > u128::MAX - bt.free {
            return Err(Error::Overflow);
        }
        self.set_slot(c, from, AccountBalance { free: bf.free - amount, reserved: bf.reserved });
        self.set_slot(c, to, AccountBalance { free: bt.free + amount, reserved: bt.reserved });
        Ok(())
    }
}

} // verus!
