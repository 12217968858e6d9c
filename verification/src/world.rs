//! The whole engine as one value. User calls are methods on [`World`]; the
//! per-block deferred sweeps are methods too. The host drives the clock and
//! the randomness beacon through `set_timestamp` and `set_beacon`, and seeds
//! balances through the ledger.
//!
//! The state is deliberately open: the host owns the state store, and every
//! operation states its exact effect relative to whatever state it finds.
//! The module invariants (queue membership, stake accounting, credibility
//! bounds, judgment uniqueness) are carried as implications in each
//! operation's contract, so they hold of every world reachable from
//! [`World::new`] through the engine's calls.

use vstd::prelude::*;
use crate::ledger::Ledger;
use crate::store::Store;
use crate::types::{
    Config, CurrencyId, CurrencyMetadata, Dispute, Error, Evaluator, Event, Identity, Payment,
    PendingFund, Resolver, VerifyRequest,
};

verus! {

pub struct World {
    /// The configuration constants, fixed at instantiation.
    pub config: Config,
    /// The timestamp of the current block.
    pub now: u64,
    /// The randomness beacon output for the current block.
    pub beacon: u64,
    /// Free and reserved balances per `(currency, account)`.
    pub ledger: Ledger,
    /// Registered currencies, keyed by metadata digest.
    pub currencies: Store<CurrencyMetadata>,
    /// Per-merchant list of accepted registered currencies.
    pub accepted_currencies: Store<Vec<u64>>,
    /// Identity records, keyed by owner account.
    pub identities: Store<Identity>,
    /// Evaluators, keyed by account.
    pub evaluators: Store<Evaluator>,
    /// Pending verify-data requests, keyed by evaluator account.
    pub verify_data_requests: Store<Vec<VerifyRequest>>,
    /// Resolver records, keyed by account.
    pub resolvers: Store<Resolver>,
    /// Accounts of resolvers whose status is `Active`.
    pub active_resolvers: Vec<u64>,
    /// Delayed unreservations awaiting their release moment.
    pub pending_funds: Vec<PendingFund>,
    /// The strictly monotonic payment id counter.
    pub latest_payment_id: u64,
    /// Payments, keyed by payment key.
    pub payments: Store<Payment>,
    /// Keys of the payments each payer has created.
    pub payments_owned: Store<Vec<u128>>,
    /// Keys of payments in `Pending` status, in insertion order.
    pub pending_payment_hashes: Vec<u128>,
    /// Keys of payments in `Fulfilled` status, in insertion order.
    pub fulfilled_payment_hashes: Vec<u128>,
    /// Disputes, keyed by the disputed payment's key.
    pub disputes: Store<Dispute>,
    /// Keys of disputes in `Finalizing` status, in enqueue order.
    pub finalizing_disputes: Vec<u128>,
    /// The event log, in block order.
    pub events: Vec<Event>,
}

impl World {
    /// The currency-registry state is unchanged.
    pub open spec fn same_currencies(pre: World, post: World) -> bool {
        &&& post.currencies == pre.currencies
        &&& post.accepted_currencies == pre.accepted_currencies
    }

    /// The identities-module state is unchanged.
    pub open spec fn same_identities(pre: World, post: World) -> bool {
        &&& post.identities == pre.identities
        &&& post.evaluators == pre.evaluators
        &&& post.verify_data_requests == pre.verify_data_requests
    }

    /// The resolver-network state is unchanged.
    pub open spec fn same_resolvers(pre: World, post: World) -> bool {
        &&& post.resolvers == pre.resolvers
        &&& post.active_resolvers == pre.active_resolvers
        &&& post.pending_funds == pre.pending_funds
    }

    /// The payment-engine state is unchanged.
    pub open spec fn same_payments(pre: World, post: World) -> bool {
        &&& post.latest_payment_id == pre.latest_payment_id
        &&& post.payments == pre.payments
        &&& post.payments_owned == pre.payments_owned
        &&& post.pending_payment_hashes == pre.pending_payment_hashes
        &&& post.fulfilled_payment_hashes == pre.fulfilled_payment_hashes
    }

    /// The dispute-engine state is unchanged.
    pub open spec fn same_disputes(pre: World, post: World) -> bool {
        &&& post.disputes == pre.disputes
        &&& post.finalizing_disputes == pre.finalizing_disputes
    }

    /// The configuration, clock and beacon are unchanged.
    pub open spec fn same_env(pre: World, post: World) -> bool {
        &&& post.config == pre.config
        &&& post.now == pre.now
        &&& post.beacon == pre.beacon
    }

    /// The ledger is unchanged.
    pub open spec fn same_ledger(pre: World, post: World) -> bool {
        post.ledger == pre.ledger
    }

    /// A fresh world: empty state, clock and beacon at zero.
    pub fn new(config: Config) -> (w: World)
        requires
            config.wf(),
        ensures
            w.config == config,
            w.now == 0,
            w.beacon == 0,
            forall|c: CurrencyId, a: u64|
                #[trigger] w.ledger.bal(c, a) == crate::ledger::zero_balance(),
            w.currencies@ == Map::<u128, CurrencyMetadata>::empty(),
            w.accepted_currencies@ == Map::<u128, Vec<u64>>::empty(),
            w.identities@ == Map::<u128, Identity>::empty(),
            w.evaluators@ == Map::<u128, Evaluator>::empty(),
            w.verify_data_requests@ == Map::<u128, Vec<VerifyRequest>>::empty(),
            w.resolvers@ == Map::<u128, Resolver>::empty(),
            w.active_resolvers@ == Seq::<u64>::empty(),
            w.pending_funds@ == Seq::<PendingFund>::empty(),
            w.latest_payment_id == 0,
            w.payments@ == Map::<u128, Payment>::empty(),
            w.payments_owned@ == Map::<u128, Vec<u128>>::empty(),
            w.pending_payment_hashes@ == Seq::<u128>::empty(),
            w.fulfilled_payment_hashes@ == Seq::<u128>::empty(),
            w.disputes@ == Map::<u128, Dispute>::empty(),
            w.finalizing_disputes@ == Seq::<u128>::empty(),
            w.events@ == Seq::<Event>::empty(),
    {
        World {
            config,
            now: 0,
            beacon: 0,
            ledger: Ledger::new(),
            currencies: Store::new(),
            accepted_currencies: Store::new(),
            identities: Store::new(),
            evaluators: Store::new(),
            verify_data_requests: Store::new(),
            resolvers: Store::new(),
            active_resolvers: Vec::new(),
            pending_funds: Vec::new(),
            latest_payment_id: 0,
            payments: Store::new(),
            payments_owned: Store::new(),
            pending_payment_hashes: Vec::new(),
            fulfilled_payment_hashes: Vec::new(),
            disputes: Store::new(),
            finalizing_disputes: Vec::new(),
            events: Vec::new(),
        }
    }

    /// The host clock: time advances only at block boundaries.
    pub fn set_timestamp(&mut self, now: u64)
        ensures
            *final(self) == (World { now, ..*old(self) }),
    {
        self.now = now;
    }

    /// The host randomness beacon output for the current block.
    pub fn set_beacon(&mut self, beacon: u64)
        ensures
            *final(self) == (World { beacon, ..*old(self) }),
    {
        self.beacon = beacon;
    }

    /// What `faucet` does: mints the requested amount, topping the account
    /// up with `NativeTokenDeposit` native first when a non-native currency
    /// is requested.
    pub open spec fn faucet_post(
        pre: World,
        post: World,
        requestor: u64,
        amount: u128,
        currency_id: CurrencyId,
        r: Result<(), Error>,
    ) -> bool {
        let topup = !(currency_id is Native);
        let native_fit = pre.ledger.free_of(CurrencyId::Native, requestor)
            + pre.config.native_token_deposit <= u128::MAX;
        let cur_fit = pre.ledger.free_of(currency_id, requestor) + amount <= u128::MAX;
        &&& r.is_ok() == (if topup {
            native_fit && cur_fit
        } else {
            cur_fit
        })
        &&& if r.is_ok() {
            &&& post.ledger.bal(currency_id, requestor) == (crate::ledger::AccountBalance {
                free: (pre.ledger.free_of(currency_id, requestor) + amount) as u128,
                reserved: pre.ledger.reserved_of(currency_id, requestor),
            })
            &&& (topup ==> post.ledger.bal(CurrencyId::Native, requestor) == (
            crate::ledger::AccountBalance {
                free: (pre.ledger.free_of(CurrencyId::Native, requestor)
                    + pre.config.native_token_deposit) as u128,
                reserved: pre.ledger.reserved_of(CurrencyId::Native, requestor),
            }))
            &&& forall|c2: CurrencyId, a2: u64|
                !(a2 == requestor && (c2 == currency_id || (topup && c2 == CurrencyId::Native)))
                    ==> #[trigger] post.ledger.bal(c2, a2) == pre.ledger.bal(c2, a2)
            &&& post.events@ == pre.events@.push(
                Event::FaucetAccepted { account: requestor, amount, currency_id },
            )
            &&& World::same_env(pre, post)
            &&& World::same_currencies(pre, post)
            &&& World::same_identities(pre, post)
            &&& World::same_resolvers(pre, post)
            &&& World::same_payments(pre, post)
            &&& World::same_disputes(pre, post)
        } else {
            &&& World::unchanged(pre, post)
            &&& r == Result::<(), Error>::Err(Error::Overflow)
        }
    }

    /// Grants the requested amount, and a native top-up alongside any
    /// non-native request.
    pub fn faucet(&mut self, requestor: u64, amount: u128, currency_id: CurrencyId) -> (r: Result<
        (),
        Error,
    >)
        ensures
            World::faucet_post(*old(self), *final(self), requestor, amount, currency_id, r),
    {
        let topup = match currency_id {
            CurrencyId::Native => false,
            _ => true,
        };
        if topup {
            if self.config.native_token_deposit > u128::MAX - self.ledger.free_balance(
                CurrencyId::Native,
                requestor,
            ) {
                return Err(Error::Overflow);
            }
        }
        if amount > u128::MAX - self.ledger.free_balance(currency_id, requestor) {
            return Err(Error::Overflow);
        }
        if topup {
            let nd = self.config.native_token_deposit;
            match self.ledger.deposit(CurrencyId::Native, requestor, nd) {
                Ok(()) => {},
                Err(_) => {
                    proof {
                        assert(false);
                    }
                },
            }
        }
        match self.ledger.deposit(currency_id, requestor, amount) {
            Ok(()) => {},
            Err(_) => {
                proof {
                    assert(false);
                }
            },
        }
        self.events.push(Event::FaucetAccepted { account: requestor, amount, currency_id });
        Ok(())
    }

    /// The whole per-block deferred pass, in the order the host runs it:
    /// payment expiry, payment auto-completion, pending-fund release, then
    /// dispute settlement. Each stage's effect is pinned by its own chain.
    pub fn run_offchain_worker(&mut self)
        ensures
            exists|w1: World, w2: World, w3: World|
                #![trigger World::expire_chain(*old(self), old(self).pending_payment_hashes@, w1),
                    World::auto_complete_chain(w1, w1.fulfilled_payment_hashes@, w2),
                    World::release_pending_funds_post(w2, w3)]
                {
                    &&& World::expire_chain(*old(self), old(self).pending_payment_hashes@, w1)
                    &&& World::auto_complete_chain(w1, w1.fulfilled_payment_hashes@, w2)
                    &&& World::release_pending_funds_post(w2, w3)
                    &&& World::settle_chain(w3, w3.finalizing_disputes@, *final(self))
                },
            old(self).payments_ok() ==> final(self).payments_ok(),
            old(self).disputes_ok() ==> final(self).disputes_ok(),
            old(self).config.wf() && old(self).credibility_ok() ==> final(self).credibility_ok(),
            old(self).resolvers_ok() && old(self).active_resolvers_known()
                ==> final(self).resolvers_ok() && final(self).active_resolvers_known(),
    {
        self.evaluate_pending_payments();
        let ghost w1 = *self;
        self.evaluate_full_filled_payments();
        let ghost w2 = *self;
        self.release_pending_funds();
        let ghost w3 = *self;
        self.process_finalizing_disputes();
        proof {
            assert(World::expire_chain(*old(self), old(self).pending_payment_hashes@, w1));
            assert(World::auto_complete_chain(w1, w1.fulfilled_payment_hashes@, w2));
            assert(World::release_pending_funds_post(w2, w3));
            assert(World::settle_chain(w3, w3.finalizing_disputes@, *self));
        }
    }

    /// The most recently emitted event.
    pub fn last_event(&self) -> (r: Option<&Event>)
        ensures
            match r {
                Some(e) => self.events@.len() > 0 && *e == self.events@.last(),
                None => self.events@.len() == 0,
            },
    {
        self.events.last()
    }
}

} // verus!
