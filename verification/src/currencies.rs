//! The currencies registry: registrars create currencies by bonding native
//! tokens, merchants accept currencies before payments can name them.

use vstd::prelude::*;
use crate::hashing::{
    digest_chain, digest_chain_u64, digest_push_byte, digest_from, digest_step, digest_u64,
    DIGEST_MOD, DIGEST_SEED,
};
use crate::ledger::{unreserve_released, AccountBalance};
use crate::types::{Config, CurrencyId, CurrencyMetadata, Error, Event};
use crate::world::World;

verus! {

/// The content-derived key of a registered currency: equal metadata always
/// collides, by design.
pub open spec fn currency_key(name: Seq<u8>, symbol: Seq<u8>, decimals: u8, issuer: u64) -> int {
    digest_u64(
        digest_step(digest_from(digest_from(DIGEST_SEED as int, name), symbol), decimals as int),
        issuer,
    )
}

/// The currency key is a digest, so it stays inside `[0, 2^61)`.
pub proof fn lemma_currency_key_bounded(name: Seq<u8>, symbol: Seq<u8>, decimals: u8, issuer: u64)
    ensures
        0 <= currency_key(name, symbol, decimals, issuer) < DIGEST_MOD,
{
    crate::hashing::lemma_digest_from_bounded(DIGEST_SEED as int, name);
    crate::hashing::lemma_digest_from_bounded(digest_from(DIGEST_SEED as int, name), symbol);
    crate::hashing::lemma_digest_from_bounded(
        digest_step(digest_from(digest_from(DIGEST_SEED as int, name), symbol), decimals as int),
        crate::hashing::u64_le_bytes(issuer),
    );
}

/// Computes the registry key of the given metadata.
pub fn currency_key_of(name: &Vec<u8>, symbol: &Vec<u8>, decimals: u8, issuer: u64) -> (h: u64)
    ensures
        h as int == currency_key(name@, symbol@, decimals, issuer),
        h < DIGEST_MOD,
{
    let mut h = digest_chain(DIGEST_SEED, name);
    h = digest_chain(h, symbol);
    h = digest_push_byte(h, decimals);
    digest_chain_u64(h, issuer)
}

impl World {
    /// Nothing at all changed.
    pub open spec fn unchanged(pre: World, post: World) -> bool {
        &&& World::same_env(pre, post)
        &&& World::same_ledger(pre, post)
        &&& World::same_currencies(pre, post)
        &&& World::same_identities(pre, post)
        &&& World::same_resolvers(pre, post)
        &&& World::same_payments(pre, post)
        &&& World::same_disputes(pre, post)
        &&& post.events == pre.events
    }

    /// Whether `a` can reserve `amount` of `c` on `pre`'s ledger.
    pub open spec fn can_reserve(pre: World, c: CurrencyId, a: u64, amount: u128) -> bool {
        &&& pre.ledger.free_of(c, a) >= amount
        &&& pre.ledger.reserved_of(c, a) + amount <= u128::MAX
    }

    /// The error a failed reserve of `amount` of `c` by `a` reports.
    pub open spec fn reserve_error(pre: World, c: CurrencyId, a: u64, amount: u128) -> Error {
        if pre.ledger.free_of(c, a) < amount {
            Error::InsufficientBalance
        } else {
            Error::Overflow
        }
    }

    /// Every registry entry sits under the key derived from its metadata.
    pub open spec fn currencies_ok(self) -> bool {
        forall|k: u128| #[trigger]
            self.currencies@.contains_key(k) ==> k as int == currency_key(
                self.currencies@[k].name@,
                self.currencies@[k].symbol@,
                self.currencies@[k].decimals,
                self.currencies@[k].issuer,
            )
    }

    /// What `create_currency` does: reserves `BondingAmount` native from the
    /// issuer and registers the metadata under its content key; fails on a
    /// key collision (`CurrencyExisted`) or when the bond cannot be reserved.
    pub open spec fn create_currency_post(
        pre: World,
        post: World,
        issuer: u64,
        name: Seq<u8>,
        symbol: Seq<u8>,
        decimals: u8,
        r: Result<(), Error>,
    ) -> bool {
        let h = currency_key(name, symbol, decimals, issuer);
        let hk = h as u128;
        let existed = pre.currencies@.contains_key(hk);
        let bond = pre.config.bonding_amount;
        &&& r.is_ok() == (!existed && World::can_reserve(pre, CurrencyId::Native, issuer, bond))
        &&& if r.is_ok() {
            &&& post.currencies@.dom() == pre.currencies@.dom().insert(hk)
            &&& post.currencies@[hk].name@ == name
            &&& post.currencies@[hk].symbol@ == symbol
            &&& post.currencies@[hk].decimals == decimals
            &&& post.currencies@[hk].issuer == issuer
            &&& forall|k: u128|
                k != hk && pre.currencies@.contains_key(k) ==> #[trigger] post.currencies@[k]
                    == pre.currencies@[k]
            &&& post.accepted_currencies == pre.accepted_currencies
            &&& post.ledger.bal(CurrencyId::Native, issuer) == (AccountBalance {
                free: (pre.ledger.free_of(CurrencyId::Native, issuer) - bond) as u128,
                reserved: (pre.ledger.reserved_of(CurrencyId::Native, issuer) + bond) as u128,
            })
            &&& pre.ledger.same_except(post.ledger, CurrencyId::Native, issuer)
            &&& post.events@ == pre.events@.push(
                Event::CurrencyCreated { currency_hash: h as u64, created_by: issuer },
            )
            &&& World::same_env(pre, post)
            &&& World::same_identities(pre, post)
            &&& World::same_resolvers(pre, post)
            &&& World::same_payments(pre, post)
            &&& World::same_disputes(pre, post)
        } else {
            &&& World::unchanged(pre, post)
            &&& r == Result::<(), Error>::Err(
                if existed {
                    Error::CurrencyExisted
                } else {
                    World::reserve_error(pre, CurrencyId::Native, issuer, bond)
                },
            )
        }
    }

    /// Registers a currency under the content key of its metadata, bonding
    /// `BondingAmount` of native currency from the issuer.
    pub fn create_currency(
        &mut self,
        issuer: u64,
        name: Vec<u8>,
        symbol: Vec<u8>,
        decimals: u8,
    ) -> (r: Result<(), Error>)
        ensures
            World::create_currency_post(
                *old(self),
                *final(self),
                issuer,
                name@,
                symbol@,
                decimals,
                r,
            ),
            old(self).currencies_ok() ==> final(self).currencies_ok(),
    {
        let h = currency_key_of(&name, &symbol, decimals, issuer);
        if self.currencies.contains_key(h as u128) {
            return Err(Error::CurrencyExisted);
        }
        match self.ledger.reserve(CurrencyId::Native, issuer, self.config.bonding_amount) {
            Err(e) => {
                return Err(e);
            },
            Ok(()) => {},
        }
        self.currencies.insert(h as u128, CurrencyMetadata { name, symbol, decimals, issuer });
        self.events.push(Event::CurrencyCreated { currency_hash: h, created_by: issuer });
        proof {
            assert(self.currencies@.dom() =~= old(self).currencies@.dom().insert(h as u128));
        }
        Ok(())
    }

    /// What `remove_currency` does: the issuer, and only the issuer, removes
    /// the entry and gets the bond unreserved.
    pub open spec fn remove_currency_post(
        pre: World,
        post: World,
        who: u64,
        currency_hash: u64,
        r: Result<(), Error>,
    ) -> bool {
        let hk = currency_hash as u128;
        let found = pre.currencies@.contains_key(hk);
        let bond = pre.config.bonding_amount;
        let released = unreserve_released(pre.ledger.bal(CurrencyId::Native, who), bond);
        &&& r.is_ok() == (found && pre.currencies@[hk].issuer == who)
        &&& if r.is_ok() {
            &&& post.currencies@ == pre.currencies@.remove(hk)
            &&& post.accepted_currencies == pre.accepted_currencies
            &&& post.ledger.bal(CurrencyId::Native, who) == (AccountBalance {
                free: (pre.ledger.free_of(CurrencyId::Native, who) + released) as u128,
                reserved: (pre.ledger.reserved_of(CurrencyId::Native, who) - released) as u128,
            })
            &&& pre.ledger.same_except(post.ledger, CurrencyId::Native, who)
            &&& post.events@ == pre.events@.push(
                Event::CurrencyRemoved {
                    currency_hash,
                    name: pre.currencies@[hk].name,
                    symbol: pre.currencies@[hk].symbol,
                    decimals: pre.currencies@[hk].decimals,
                    removed_by: who,
                },
            )
            &&& World::same_env(pre, post)
            &&& World::same_identities(pre, post)
            &&& World::same_resolvers(pre, post)
            &&& World::same_payments(pre, post)
            &&& World::same_disputes(pre, post)
        } else {
            &&& World::unchanged(pre, post)
            &&& r == Result::<(), Error>::Err(
                if !found {
                    Error::CurrencyNotFound
                } else {
                    Error::NotCurrencyIssuer
                },
            )
        }
    }

    /// Removes a registered currency and returns the bond to its issuer.
    pub fn remove_currency(&mut self, who: u64, currency_hash: u64) -> (r: Result<(), Error>)
        ensures
            World::remove_currency_post(*old(self), *final(self), who, currency_hash, r),
            old(self).currencies_ok() ==> final(self).currencies_ok(),
    {
        let issuer_ok = match self.currencies.get(currency_hash as u128) {
            None => {
                return Err(Error::CurrencyNotFound);
            },
            Some(meta) => meta.issuer == who,
        };
        if !issuer_ok {
            return Err(Error::NotCurrencyIssuer);
        }
        let meta = self.currencies.remove(currency_hash as u128).unwrap();
        self.ledger.unreserve(CurrencyId::Native, who, self.config.bonding_amount);
        self.events.push(
            Event::CurrencyRemoved {
                currency_hash,
                name: meta.name,
                symbol: meta.symbol,
                decimals: meta.decimals,
                removed_by: who,
            },
        );
        Ok(())
    }

    /// What `accept_currency` does: appends the key to the merchant's list
    /// (duplicates permitted by design).
    pub open spec fn accept_currency_post(
        pre: World,
        post: World,
        merchant: u64,
        currency_hash: u64,
        r: Result<(), Error>,
    ) -> bool {
        let hk = currency_hash as u128;
        let mk = merchant as u128;
        let pre_list = if pre.accepted_currencies@.contains_key(mk) {
            pre.accepted_currencies@[mk]@
        } else {
            Seq::<u64>::empty()
        };
        &&& r.is_ok() == pre.currencies@.contains_key(hk)
        &&& if r.is_ok() {
            &&& post.accepted_currencies@.dom() == pre.accepted_currencies@.dom().insert(mk)
            &&& post.accepted_currencies@[mk]@ == pre_list.push(currency_hash)
            &&& forall|k: u128|
                k != mk && pre.accepted_currencies@.contains_key(k)
                    ==> #[trigger] post.accepted_currencies@[k] == pre.accepted_currencies@[k]
            &&& post.currencies == pre.currencies
            &&& World::same_env(pre, post)
            &&& World::same_ledger(pre, post)
            &&& World::same_identities(pre, post)
            &&& World::same_resolvers(pre, post)
            &&& World::same_payments(pre, post)
            &&& World::same_disputes(pre, post)
            &&& post.events@ == pre.events@.push(
                Event::CurrencyAccepted { currency_hash, accepted_by: merchant },
            )
        } else {
            &&& World::unchanged(pre, post)
            &&& r == Result::<(), Error>::Err(Error::CurrencyNotFound)
        }
    }

    /// Adds a registered currency to the merchant's acceptance list.
    pub fn accept_currency(&mut self, merchant: u64, currency_hash: u64) -> (r: Result<(), Error>)
        ensures
            World::accept_currency_post(*old(self), *final(self), merchant, currency_hash, r),
            old(self).currencies_ok() ==> final(self).currencies_ok(),
    {
        if !self.currencies.contains_key(currency_hash as u128) {
            return Err(Error::CurrencyNotFound);
        }
        let mut list = match self.accepted_currencies.remove(merchant as u128) {
            Some(l) => l,
            None => Vec::new(),
        };
        list.push(currency_hash);
        self.accepted_currencies.insert(merchant as u128, list);
        self.events.push(Event::CurrencyAccepted { currency_hash, accepted_by: merchant });
        proof {
            assert(self.accepted_currencies@.dom() =~= old(self).accepted_currencies@.dom().insert(
                merchant as u128,
            ));
        }
        Ok(())
    }

    /// Whether `merchant` accepts `currency_id`: the native currency always,
    /// a registered one iff it stands in the merchant's list.
    pub open spec fn is_accepted(self, merchant: u64, currency_id: CurrencyId) -> bool {
        match currency_id {
            CurrencyId::Native => true,
            CurrencyId::Registered(h) => {
                &&& self.accepted_currencies@.contains_key(merchant as u128)
                &&& self.accepted_currencies@[merchant as u128]@.contains(h)
            },
        }
    }

    /// Evaluates the merchant's acceptance of a currency.
    pub fn is_currency_accepted(&self, merchant: u64, currency_id: &CurrencyId) -> (r: bool)
        ensures
            r == self.is_accepted(merchant, *currency_id),
    {
        match currency_id {
            CurrencyId::Native => true,
            CurrencyId::Registered(h) => {
                match self.accepted_currencies.get(merchant as u128) {
                    None => false,
                    Some(list) => crate::util::contains_u64(list, *h),
                }
            },
        }
    }

    /// No two registered currencies hold the same metadata: entries under
    /// distinct keys differ in at least one metadata component.
    pub proof fn lemma_currency_metadata_unique(self, k1: u128, k2: u128)
        requires
            self.currencies_ok(),
            self.currencies@.contains_key(k1),
            self.currencies@.contains_key(k2),
            k1 != k2,
        ensures
            !{
                let m1 = self.currencies@[k1];
                let m2 = self.currencies@[k2];
                &&& m1.name@ == m2.name@
                &&& m1.symbol@ == m2.symbol@
                &&& m1.decimals == m2.decimals
                &&& m1.issuer == m2.issuer
            },
    {
    }

    /// Creating a currency and then removing it restores the issuer's free
    /// native balance exactly.
    pub proof fn lemma_currency_round_trip(
        w0: World,
        w1: World,
        w2: World,
        issuer: u64,
        name: Seq<u8>,
        symbol: Seq<u8>,
        decimals: u8,
    )
        requires
            World::create_currency_post(w0, w1, issuer, name, symbol, decimals, Ok(())),
            World::remove_currency_post(
                w1,
                w2,
                issuer,
                currency_key(name, symbol, decimals, issuer) as u64,
                Ok(()),
            ),
        ensures
            w2.ledger.free_of(CurrencyId::Native, issuer) == w0.ledger.free_of(
                CurrencyId::Native,
                issuer,
            ),
            w2.ledger.reserved_of(CurrencyId::Native, issuer) == w0.ledger.reserved_of(
                CurrencyId::Native,
                issuer,
            ),
    {
        lemma_currency_key_bounded(name, symbol, decimals, issuer);
    }
}

} // verus!
