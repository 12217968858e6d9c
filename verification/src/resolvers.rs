//! The resolver network: stake-based membership with delegations, random
//! selection for disputes, time-locked fund release, and credibility-driven
//! termination.

use vstd::prelude::*;
use crate::hashing::{digest_bytes, digest_of};
use crate::ledger::AccountBalance;
use crate::types::{
    CurrencyId, Delegation, Error, Event, PendingFund, Resolver, ResolverStatus,
};
use crate::world::World;

verus! {

/// The total amount delegated in `s`.
pub open spec fn delegations_sum(s: Seq<Delegation>) -> int
    decreases s.len(),
{
    if s.len() == 0 {
        0
    } else {
        delegations_sum(s.drop_last()) + s.last().amount
    }
}

/// Replacing one delegation changes the sum by the difference.
pub proof fn lemma_delegations_sum_update(s: Seq<Delegation>, i: int, d: Delegation)
    requires
        0 <= i < s.len(),
    ensures
        delegations_sum(s.update(i, d)) == delegations_sum(s) - s[i].amount + d.amount,
    decreases s.len(),
{
    if s.len() > 0 {
        if i == s.len() - 1 {
            assert(s.update(i, d).drop_last() =~= s.drop_last());
        } else {
            assert(s.update(i, d).drop_last() =~= s.drop_last().update(i, d));
            lemma_delegations_sum_update(s.drop_last(), i, d);
        }
    }
}

/// Dropping zero-amount delegations keeps the sum.
pub proof fn lemma_delegations_sum_filter_pos(s: Seq<Delegation>)
    ensures
        delegations_sum(positive_delegations(s)) == delegations_sum(s),
    decreases s.len(),
{
    reveal_with_fuel(Seq::filter, 2);
    if s.len() > 0 {
        lemma_delegations_sum_filter_pos(s.drop_last());
        let f = positive_delegations(s.drop_last());
        if s.last().amount > 0 {
            assert(f.push(s.last()).drop_last() =~= f);
        }
    }
}

/// Membership in a pushed sequence.
pub proof fn lemma_push_contains_u64(s: Seq<u64>, x: u64, y: u64)
    ensures
        s.push(x).contains(y) == (s.contains(y) || y == x),
{
    if s.push(x).contains(y) {
        let i = choose|i: int| 0 <= i < s.push(x).len() && s.push(x)[i] == y;
        if i < s.len() {
            assert(s[i] == y);
        }
    }
    if s.contains(y) {
        let i = choose|i: int| 0 <= i < s.len() && s[i] == y;
        assert(s.push(x)[i] == y);
    }
    if y == x {
        assert(s.push(x)[s.len() as int] == y);
    }
}

/// `s` without every occurrence of `x`, order kept.
pub open spec fn seq_remove_u64(s: Seq<u64>, x: u64) -> Seq<u64> {
    s.filter(|y: u64| y != x)
}

/// The delegations of `s` with a positive amount, order kept.
pub open spec fn positive_delegations(s: Seq<Delegation>) -> Seq<Delegation> {
    s.filter(|d: Delegation| d.amount > 0)
}

/// Membership in a filtered sequence of accounts.
pub proof fn lemma_filter_contains_u64(s: Seq<u64>, x: u64, y: u64)
    ensures
        seq_remove_u64(s, x).contains(y) == (s.contains(y) && y != x),
    decreases s.len(),
{
    reveal_with_fuel(Seq::filter, 2);
    if s.len() > 0 {
        lemma_filter_contains_u64(s.drop_last(), x, y);
        if s.last() == y && y != x {
            assert(s.contains(y));
        }
        if seq_remove_u64(s, x).contains(y) {
            if seq_remove_u64(s.drop_last(), x).contains(y) {
                let i = choose|i: int|
                    0 <= i < s.drop_last().len() && s.drop_last()[i] == y;
                assert(s[i] == y);
            }
        }
        if s.contains(y) && y != x {
            let i = choose|i: int| 0 <= i < s.len() && s[i] == y;
            if i < s.len() - 1 {
                assert(s.drop_last()[i] == y);
                assert(s.drop_last().contains(y));
            }
        }
    }
}

/// Removes every occurrence of `x`, keeping the order of the rest.
pub fn remove_all_u64(v: &mut Vec<u64>, x: u64)
    ensures
        final(v)@ == seq_remove_u64(old(v)@, x),
{
    let ghost orig = v@;
    let mut out: Vec<u64> = Vec::new();
    let mut i: usize = 0;
    proof {
        assert(orig.subrange(0, 0) =~= Seq::<u64>::empty());
        assert(seq_remove_u64(Seq::<u64>::empty(), x) =~= Seq::<u64>::empty());
    }
    while i < v.len()
        invariant
            i <= v.len(),
            v@ == orig,
            out@ == seq_remove_u64(orig.subrange(0, i as int), x),
        decreases v.len() - i,
    {
        let e = v[i];
        proof {
            assert(orig.subrange(0, i + 1).drop_last() =~= orig.subrange(0, i as int));
            assert(orig.subrange(0, i + 1).last() == orig[i as int]);
            reveal_with_fuel(Seq::filter, 2);
        }
        if e != x {
            out.push(e);
        }
        i = i + 1;
    }
    proof {
        assert(orig.subrange(0, orig.len() as int) =~= orig);
    }
    *v = out;
}

/// The index of the first delegation by `delegator`, if any.
pub open spec fn delegation_index(s: Seq<Delegation>, delegator: u64) -> int
    decreases s.len(),
{
    if s.len() == 0 {
        0
    } else if s[0].delegator == delegator {
        0
    } else {
        1 + delegation_index(s.drop_first(), delegator)
    }
}

/// Whether `delegator` has a delegation in `s`.
pub open spec fn has_delegation(s: Seq<Delegation>, delegator: u64) -> bool {
    exists|i: int| 0 <= i < s.len() && (#[trigger] s[i]).delegator == delegator
}

proof fn lemma_delegation_index(s: Seq<Delegation>, delegator: u64)
    requires
        has_delegation(s, delegator),
    ensures
        0 <= delegation_index(s, delegator) < s.len(),
        s[delegation_index(s, delegator)].delegator == delegator,
        forall|j: int|
            0 <= j < delegation_index(s, delegator) ==> (#[trigger] s[j]).delegator != delegator,
    decreases s.len(),
{
    if s.len() > 0 && s[0].delegator != delegator {
        let i = choose|i: int| 0 <= i < s.len() && (#[trigger] s[i]).delegator == delegator;
        assert(s.drop_first()[i - 1].delegator == delegator);
        lemma_delegation_index(s.drop_first(), delegator);
        assert forall|j: int|
            0 <= j < delegation_index(s, delegator) implies (#[trigger] s[j]).delegator
            != delegator by {
            if j > 0 {
                assert(s.drop_first()[j - 1] == s[j]);
            }
        }
    }
}

impl World {
    /// The resolver-network invariant: each resolver's total stake is its
    /// self-stake plus the sum of its delegations, and the active list holds
    /// exactly the accounts whose status is `Active`.
    pub open spec fn resolvers_ok(self) -> bool {
        forall|k: u128| #[trigger]
            self.resolvers@.contains_key(k) ==> {
                let r = self.resolvers@[k];
                &&& k <= 0xffffffffffffffffu128
                &&& r.total_stake == r.self_stake + delegations_sum(r.delegations@)
                &&& self.active_resolvers@.contains(k as u64) == (r.status is Active)
            }
    }

    /// Accounts in the active list always belong to resolver records.
    pub open spec fn active_resolvers_known(self) -> bool {
        forall|i: int|
            0 <= i < self.active_resolvers@.len() ==> self.resolvers@.contains_key(
                (#[trigger] self.active_resolvers@[i]) as u128,
            )
    }

    /// What `join_resolvers_network` does: an identity above the credibility
    /// floor stakes at least `MinimumSelfStake` and enters in `Candidacy`,
    /// or directly in `Active` when the stake reaches the activation
    /// threshold.
    pub open spec fn join_post(
        pre: World,
        post: World,
        who: u64,
        application: Seq<u8>,
        self_stake: u128,
        r: Result<(), Error>,
    ) -> bool {
        let wk = who as u128;
        let already = pre.resolvers@.contains_key(wk);
        let has_id = pre.identities@.contains_key(wk);
        let cred_ok = has_id && pre.identities@[wk].credibility > pre.config.required_credibility;
        let stake_ok = self_stake >= pre.config.minimum_self_stake;
        let free_ok = pre.ledger.free_of(CurrencyId::Native, who) >= self_stake;
        let res_ok = pre.ledger.reserved_of(CurrencyId::Native, who) + self_stake <= u128::MAX;
        let activates = self_stake >= pre.config.activation_stake_amount;
        &&& r.is_ok() == (!already && has_id && cred_ok && stake_ok && free_ok && res_ok)
        &&& if r.is_ok() {
            let res = post.resolvers@[wk];
            &&& post.resolvers@.dom() == pre.resolvers@.dom().insert(wk)
            &&& forall|k: u128|
                k != wk && pre.resolvers@.contains_key(k) ==> #[trigger] post.resolvers@[k]
                    == pre.resolvers@[k]
            &&& res.application_digest == digest_of(application) as u64
            &&& res.status == (if activates {
                ResolverStatus::Active
            } else {
                ResolverStatus::Candidacy
            })
            &&& res.self_stake == self_stake
            &&& res.total_stake == self_stake
            &&& res.delegations@ == Seq::<Delegation>::empty()
            &&& res.updated_at == pre.now
            &&& post.active_resolvers@ == (if activates {
                pre.active_resolvers@.push(who)
            } else {
                pre.active_resolvers@
            })
            &&& post.pending_funds == pre.pending_funds
            &&& post.ledger.bal(CurrencyId::Native, who) == (AccountBalance {
                free: (pre.ledger.free_of(CurrencyId::Native, who) - self_stake) as u128,
                reserved: (pre.ledger.reserved_of(CurrencyId::Native, who) + self_stake) as u128,
            })
            &&& pre.ledger.same_except(post.ledger, CurrencyId::Native, who)
            &&& post.events@ == pre.events@.push(Event::ResolverCreated { account: who })
            &&& World::same_env(pre, post)
            &&& World::same_currencies(pre, post)
            &&& World::same_identities(pre, post)
            &&& World::same_payments(pre, post)
            &&& World::same_disputes(pre, post)
        } else {
            &&& World::unchanged(pre, post)
            &&& r == Result::<(), Error>::Err(
                if already {
                    Error::AccessDenied
                } else if !has_id {
                    Error::IdentityRequired
                } else if !cred_ok {
                    Error::CredibilityTooLow
                } else if !stake_ok {
                    Error::NotMeetMinimumSelfStake
                } else if !free_ok {
                    Error::InsufficientBalance
                } else {
                    Error::Overflow
                },
            )
        }
    }

    /// Applies `who` to the resolver network with the given self-stake.
    pub fn join_resolvers_network(
        &mut self,
        who: u64,
        application: Vec<u8>,
        self_stake: u128,
    ) -> (r: Result<(), Error>)
        ensures
            World::join_post(*old(self), *final(self), who, application@, self_stake, r),
            old(self).resolvers_ok() && old(self).active_resolvers_known()
                ==> final(self).resolvers_ok() && final(self).active_resolvers_known(),
    {
        if self.resolvers.contains_key(who as u128) {
            return Err(Error::AccessDenied);
        }
        if !self.has_identity(who) {
            return Err(Error::IdentityRequired);
        }
        let cred = match self.get_credibility(who) {
            Ok(c) => c,
            Err(e) => {
                return Err(e);
            },
        };
        if cred <= self.config.required_credibility {
            return Err(Error::CredibilityTooLow);
        }
        if self_stake < self.config.minimum_self_stake {
            return Err(Error::NotMeetMinimumSelfStake);
        }
        if self.ledger.free_balance(CurrencyId::Native, who) < self_stake {
            return Err(Error::InsufficientBalance);
        }
        match self.ledger.reserve(CurrencyId::Native, who, self_stake) {
            Err(e) => {
                return Err(e);
            },
            Ok(()) => {},
        }
        let application_digest = digest_bytes(&application);
        let activates = self_stake >= self.config.activation_stake_amount;
        let status = if activates {
            self.active_resolvers.push(who);
            ResolverStatus::Active
        } else {
            ResolverStatus::Candidacy
        };
        self.resolvers.insert(
            who as u128,
            Resolver {
                application_digest,
                status,
                self_stake,
                delegations: Vec::new(),
                total_stake: self_stake,
                updated_at: self.now,
            },
        );
        self.events.push(Event::ResolverCreated { account: who });
        proof {
            assert(self.resolvers@.dom() =~= old(self).resolvers@.dom().insert(who as u128));
            if old(self).resolvers_ok() && old(self).active_resolvers_known() {
                assert forall|k: u128| #[trigger]
                    self.resolvers@.contains_key(k) implies {
                    let r = self.resolvers@[k];
                    &&& k <= 0xffffffffffffffffu128
                    &&& r.total_stake == r.self_stake + delegations_sum(r.delegations@)
                    &&& self.active_resolvers@.contains(k as u64) == (r.status is Active)
                } by {
                    if activates {
                        lemma_push_contains_u64(old(self).active_resolvers@, who, k as u64);
                    }
                    if k == who as u128 {
                        assert(delegations_sum(Seq::<Delegation>::empty()) == 0);
                        if old(self).active_resolvers@.contains(who) {
                            let i = choose|i: int|
                                0 <= i < old(self).active_resolvers@.len() && old(
                                    self,
                                ).active_resolvers@[i] == who;
                            assert(old(self).resolvers@.contains_key(who as u128));
                        }
                    } else {
                        assert(old(self).resolvers@.contains_key(k));
                        if k as u64 == who {
                            assert(k == who as u128);
                        }
                    }
                }
            }
            if old(self).active_resolvers_known() {
                assert forall|i: int|
                    0 <= i < self.active_resolvers@.len() implies self.resolvers@.contains_key(
                    (#[trigger] self.active_resolvers@[i]) as u128,
                ) by {
                    if i < old(self).active_resolvers@.len() {
                        assert(old(self).active_resolvers@[i] == self.active_resolvers@[i]);
                    }
                }
            }
        }
        Ok(())
    }
}

/// Keeps only positive-amount delegations, preserving order.
fn filter_pos_delegations(v: &Vec<Delegation>) -> (out: Vec<Delegation>)
    ensures
        out@ == positive_delegations(v@),
{
    let mut out: Vec<Delegation> = Vec::new();
    let mut i: usize = 0;
    proof {
        assert(v@.subrange(0, 0) =~= Seq::<Delegation>::empty());
        assert(positive_delegations(Seq::<Delegation>::empty()) =~= Seq::<Delegation>::empty());
    }
    while i < v.len()
        invariant
            i <= v.len(),
            out@ == positive_delegations(v@.subrange(0, i as int)),
        decreases v.len() - i,
    {
        let e = v[i];
        proof {
            assert(v@.subrange(0, i + 1).drop_last() =~= v@.subrange(0, i as int));
            assert(v@.subrange(0, i + 1).last() == v@[i as int]);
            reveal_with_fuel(Seq::filter, 2);
        }
        if e.amount > 0 {
            out.push(e);
        }
        i = i + 1;
    }
    proof {
        assert(v@.subrange(0, v@.len() as int) =~= v@);
    }
    out
}

impl World {
    /// What `delegate` does: reserves the amount from the delegator, merges
    /// it into an existing delegation entry or appends a new one, and may
    /// carry a candidate over the activation threshold.
    pub open spec fn delegate_post(
        pre: World,
        post: World,
        delegator: u64,
        resolver_account: u64,
        amount: u128,
        r: Result<(), Error>,
    ) -> bool {
        let rk = resolver_account as u128;
        let free_ok = pre.ledger.free_of(CurrencyId::Native, delegator) >= amount;
        let found = pre.resolvers@.contains_key(rk);
        let res = pre.resolvers@[rk];
        let de = res.delegations@;
        let has_d = has_delegation(de, delegator);
        let di = delegation_index(de, delegator);
        let fits = (if has_d {
            de[di].amount + amount <= u128::MAX
        } else {
            true
        }) && res.total_stake + amount <= u128::MAX;
        let res_ok = pre.ledger.reserved_of(CurrencyId::Native, delegator) + amount <= u128::MAX;
        let transition = (res.status is Candidacy) && res.total_stake + amount
            >= pre.config.activation_stake_amount;
        &&& r.is_ok() == (free_ok && found && fits && res_ok)
        &&& if r.is_ok() {
            let new_res = post.resolvers@[rk];
            &&& post.resolvers@.dom() == pre.resolvers@.dom().insert(rk)
            &&& forall|k: u128|
                k != rk && pre.resolvers@.contains_key(k) ==> #[trigger] post.resolvers@[k]
                    == pre.resolvers@[k]
            &&& new_res.delegations@ == (if has_d {
                de.update(di, Delegation { delegator, amount: (de[di].amount + amount) as u128 })
            } else {
                de.push(Delegation { delegator, amount })
            })
            &&& new_res.total_stake == res.total_stake + amount
            &&& new_res.self_stake == res.self_stake
            &&& new_res.application_digest == res.application_digest
            &&& new_res.updated_at == res.updated_at
            &&& new_res.status == (if transition {
                ResolverStatus::Active
            } else {
                res.status
            })
            &&& post.active_resolvers@ == (if transition {
                pre.active_resolvers@.push(resolver_account)
            } else {
                pre.active_resolvers@
            })
            &&& post.pending_funds == pre.pending_funds
            &&& post.ledger.bal(CurrencyId::Native, delegator) == (AccountBalance {
                free: (pre.ledger.free_of(CurrencyId::Native, delegator) - amount) as u128,
                reserved: (pre.ledger.reserved_of(CurrencyId::Native, delegator) + amount) as u128,
            })
            &&& pre.ledger.same_except(post.ledger, CurrencyId::Native, delegator)
            &&& post.events@ == (if transition {
                pre.events@.push(Event::ResolverActivated { account: resolver_account })
            } else {
                pre.events@
            })
            &&& World::same_env(pre, post)
            &&& World::same_currencies(pre, post)
            &&& World::same_identities(pre, post)
            &&& World::same_payments(pre, post)
            &&& World::same_disputes(pre, post)
        } else {
            &&& World::unchanged(pre, post)
            &&& r == Result::<(), Error>::Err(
                if !free_ok {
                    Error::InsufficientBalance
                } else if !found {
                    Error::ResolverNotFound
                } else if !fits {
                    Error::Overflow
                } else {
                    Error::Overflow
                },
            )
        }
    }

    /// Delegates native tokens to a resolver.
    pub fn delegate(&mut self, delegator: u64, resolver_account: u64, amount: u128) -> (r: Result<
        (),
        Error,
    >)
        ensures
            World::delegate_post(*old(self), *final(self), delegator, resolver_account, amount, r),
            old(self).resolvers_ok() && old(self).active_resolvers_known()
                ==> final(self).resolvers_ok() && final(self).active_resolvers_known(),
    {
        let rk = resolver_account as u128;
        if self.ledger.free_balance(CurrencyId::Native, delegator) < amount {
            return Err(Error::InsufficientBalance);
        }
        let (has_d, di, cur0, total0) = match self.resolvers.get(rk) {
            None => {
                return Err(Error::ResolverNotFound);
            },
            Some(res) => {
                let mut i: usize = 0;
                let mut found_d = false;
                while i < res.delegations.len()
                    invariant_except_break
                        i <= res.delegations@.len(),
                        !found_d,
                        forall|j: int|
                            0 <= j < i ==> (#[trigger] res.delegations@[j]).delegator != delegator,
                    ensures
                        found_d ==> i < res.delegations@.len()
                            && res.delegations@[i as int].delegator == delegator && forall|j: int|
                            0 <= j < i ==> (#[trigger] res.delegations@[j]).delegator != delegator,
                        !found_d ==> forall|j: int|
                            0 <= j < res.delegations@.len() ==> (#[trigger] res.delegations@[j]).delegator
                                != delegator,
                    decreases res.delegations@.len() - i,
                {
                    if res.delegations[i].delegator == delegator {
                        found_d = true;
                        break;
                    }
                    i = i + 1;
                }
                proof {
                    if found_d {
                        lemma_delegation_index(res.delegations@, delegator);
                    }
                }
                let cur = if found_d {
                    res.delegations[i].amount
                } else {
                    0
                };
                (found_d, i, cur, res.total_stake)
            },
        };
        if has_d && amount > u128::MAX - cur0 {
            return Err(Error::Overflow);
        }
        if amount > u128::MAX - total0 {
            return Err(Error::Overflow);
        }
        match self.ledger.reserve(CurrencyId::Native, delegator, amount) {
            Err(e) => {
                return Err(e);
            },
            Ok(()) => {},
        }
        let mut res = self.resolvers.remove(rk).unwrap();
        if has_d {
            let cur = res.delegations[di].amount;
            res.delegations.set(di, Delegation { delegator, amount: cur + amount });
            proof {
                lemma_delegations_sum_update(
                    old(self).resolvers@[rk].delegations@,
                    di as int,
                    Delegation {
                        delegator,
                        amount: (old(self).resolvers@[rk].delegations@[di as int].amount
                            + amount) as u128,
                    },
                );
            }
        } else {
            res.delegations.push(Delegation { delegator, amount });
            proof {
                assert(old(self).resolvers@[rk].delegations@.push(
                    Delegation { delegator, amount },
                ).drop_last() =~= old(self).resolvers@[rk].delegations@);
            }
        }
        res.total_stake = res.total_stake + amount;
        let transition = match res.status {
            ResolverStatus::Candidacy => res.total_stake >= self.config.activation_stake_amount,
            _ => false,
        };
        if transition {
            res.status = ResolverStatus::Active;
            self.active_resolvers.push(resolver_account);
        }
        self.resolvers.insert(rk, res);
        if transition {
            self.events.push(Event::ResolverActivated { account: resolver_account });
        }
        proof {
            assert(self.resolvers@.dom() =~= old(self).resolvers@.dom().insert(rk));
            if old(self).resolvers_ok() && old(self).active_resolvers_known() {
                assert forall|k: u128| #[trigger]
                    self.resolvers@.contains_key(k) implies {
                    let r = self.resolvers@[k];
                    &&& k <= 0xffffffffffffffffu128
                    &&& r.total_stake == r.self_stake + delegations_sum(r.delegations@)
                    &&& self.active_resolvers@.contains(k as u64) == (r.status is Active)
                } by {
                    if transition {
                        lemma_push_contains_u64(
                            old(self).active_resolvers@,
                            resolver_account,
                            k as u64,
                        );
                    }
                    if k != rk {
                        assert(old(self).resolvers@.contains_key(k));
                        if k as u64 == resolver_account {
                            assert(k == rk);
                        }
                    }
                }
                assert forall|i: int|
                    0 <= i < self.active_resolvers@.len() implies self.resolvers@.contains_key(
                    (#[trigger] self.active_resolvers@[i]) as u128,
                ) by {
                    if i < old(self).active_resolvers@.len() {
                        assert(old(self).active_resolvers@[i] == self.active_resolvers@[i]);
                    }
                }
            }
        }
        Ok(())
    }

    /// What `undelegate` does: lowers the delegation, schedules a pending
    /// fund with `UndelegateTime` delay, and may drop the resolver back to
    /// candidacy.
    pub open spec fn undelegate_post(
        pre: World,
        post: World,
        delegator: u64,
        resolver_account: u64,
        amount: u128,
        r: Result<(), Error>,
    ) -> bool {
        let rk = resolver_account as u128;
        let found = pre.resolvers@.contains_key(rk);
        let res = pre.resolvers@[rk];
        let de = res.delegations@;
        let has_d = has_delegation(de, delegator);
        let di = delegation_index(de, delegator);
        let amount_ok = has_d && amount <= de[di].amount && amount <= res.total_stake;
        let new_total = (res.total_stake - amount) as u128;
        let deactivates = new_total < pre.config.activation_stake_amount;
        let release_at = (pre.now + pre.config.undelegate_time) as u64;
        &&& r.is_ok() == (found && has_d && amount_ok)
        &&& if r.is_ok() {
            let new_res = post.resolvers@[rk];
            &&& post.resolvers@.dom() == pre.resolvers@.dom().insert(rk)
            &&& forall|k: u128|
                k != rk && pre.resolvers@.contains_key(k) ==> #[trigger] post.resolvers@[k]
                    == pre.resolvers@[k]
            &&& new_res.delegations@ == positive_delegations(
                de.update(di, Delegation { delegator, amount: (de[di].amount - amount) as u128 }),
            )
            &&& new_res.total_stake == new_total
            &&& new_res.self_stake == res.self_stake
            &&& new_res.application_digest == res.application_digest
            &&& new_res.updated_at == res.updated_at
            &&& new_res.status == (if deactivates {
                ResolverStatus::Candidacy
            } else {
                res.status
            })
            &&& post.active_resolvers@ == (if deactivates {
                seq_remove_u64(pre.active_resolvers@, resolver_account)
            } else {
                pre.active_resolvers@
            })
            &&& post.pending_funds@ == pre.pending_funds@.push(
                PendingFund { owner: delegator, amount, release_at },
            )
            &&& World::same_ledger(pre, post)
            &&& post.events@ == (if deactivates {
                pre.events@.push(Event::ResolverInactivated { account: resolver_account })
            } else {
                pre.events@
            })
            &&& World::same_env(pre, post)
            &&& World::same_currencies(pre, post)
            &&& World::same_identities(pre, post)
            &&& World::same_payments(pre, post)
            &&& World::same_disputes(pre, post)
        } else {
            &&& World::unchanged(pre, post)
            &&& r == Result::<(), Error>::Err(
                if !found {
                    Error::ResolverNotFound
                } else if !has_d {
                    Error::DelegationNotFound
                } else {
                    Error::InvalidAmount
                },
            )
        }
    }

    /// Withdraws part of a delegation; the funds stay reserved until the
    /// undelegation delay has passed.
    pub fn undelegate(&mut self, delegator: u64, resolver_account: u64, amount: u128) -> (r:
        Result<(), Error>)
        requires
            old(self).now + old(self).config.undelegate_time <= u64::MAX,
        ensures
            World::undelegate_post(
                *old(self),
                *final(self),
                delegator,
                resolver_account,
                amount,
                r,
            ),
            old(self).resolvers_ok() && old(self).active_resolvers_known()
                ==> final(self).resolvers_ok() && final(self).active_resolvers_known(),
    {
        let rk = resolver_account as u128;
        let (has_d, di, cur, total0) = match self.resolvers.get(rk) {
            None => {
                return Err(Error::ResolverNotFound);
            },
            Some(res) => {
                let mut i: usize = 0;
                let mut found_d = false;
                while i < res.delegations.len()
                    invariant_except_break
                        i <= res.delegations@.len(),
                        !found_d,
                        forall|j: int|
                            0 <= j < i ==> (#[trigger] res.delegations@[j]).delegator != delegator,
                    ensures
                        found_d ==> i < res.delegations@.len()
                            && res.delegations@[i as int].delegator == delegator && forall|j: int|
                            0 <= j < i ==> (#[trigger] res.delegations@[j]).delegator != delegator,
                        !found_d ==> forall|j: int|
                            0 <= j < res.delegations@.len() ==> (#[trigger] res.delegations@[j]).delegator
                                != delegator,
                    decreases res.delegations@.len() - i,
                {
                    if res.delegations[i].delegator == delegator {
                        found_d = true;
                        break;
                    }
                    i = i + 1;
                }
                proof {
                    if found_d {
                        lemma_delegation_index(res.delegations@, delegator);
                    }
                }
                let cur = if found_d {
                    res.delegations[i].amount
                } else {
                    0
                };
                (found_d, i, cur, res.total_stake)
            },
        };
        if !has_d {
            return Err(Error::DelegationNotFound);
        }
        if amount > cur || amount > total0 {
            return Err(Error::InvalidAmount);
        }
        let mut res = self.resolvers.remove(rk).unwrap();
        res.delegations.set(di, Delegation { delegator, amount: cur - amount });
        proof {
            lemma_delegations_sum_update(
                old(self).resolvers@[rk].delegations@,
                di as int,
                Delegation {
                    delegator,
                    amount: (old(self).resolvers@[rk].delegations@[di as int].amount
                        - amount) as u128,
                },
            );
        }
        res.total_stake = res.total_stake - amount;
        let release_at = self.now + self.config.undelegate_time;
        self.pending_funds.push(PendingFund { owner: delegator, amount, release_at });
        let deactivates = res.total_stake < self.config.activation_stake_amount;
        if deactivates {
            res.status = ResolverStatus::Candidacy;
            remove_all_u64(&mut self.active_resolvers, resolver_account);
            self.events.push(Event::ResolverInactivated { account: resolver_account });
        }
        let filtered = filter_pos_delegations(&res.delegations);
        proof {
            lemma_delegations_sum_filter_pos(res.delegations@);
        }
        res.delegations = filtered;
        self.resolvers.insert(rk, res);
        proof {
            assert(self.resolvers@.dom() =~= old(self).resolvers@.dom().insert(rk));
            if old(self).resolvers_ok() && old(self).active_resolvers_known() {
                assert forall|k: u128| #[trigger]
                    self.resolvers@.contains_key(k) implies {
                    let r = self.resolvers@[k];
                    &&& k <= 0xffffffffffffffffu128
                    &&& r.total_stake == r.self_stake + delegations_sum(r.delegations@)
                    &&& self.active_resolvers@.contains(k as u64) == (r.status is Active)
                } by {
                    if deactivates {
                        lemma_filter_contains_u64(
                            old(self).active_resolvers@,
                            resolver_account,
                            k as u64,
                        );
                    }
                    if k != rk {
                        assert(old(self).resolvers@.contains_key(k));
                        if k as u64 == resolver_account {
                            assert(k == rk);
                        }
                    }
                }
                assert forall|i: int|
                    0 <= i < self.active_resolvers@.len() implies self.resolvers@.contains_key(
                    (#[trigger] self.active_resolvers@[i]) as u128,
                ) by {
                    if deactivates {
                        let a = self.active_resolvers@[i];
                        assert(self.active_resolvers@.contains(a));
                        lemma_filter_contains_u64(
                            old(self).active_resolvers@,
                            resolver_account,
                            a,
                        );
                        assert(old(self).active_resolvers@.contains(a));
                        let j = choose|j: int|
                            0 <= j < old(self).active_resolvers@.len() && old(
                                self,
                            ).active_resolvers@[j] == a;
                        assert(old(self).resolvers@.contains_key(a as u128));
                    } else {
                        assert(old(self).active_resolvers@[i] == self.active_resolvers@[i]);
                    }
                }
            }
        }
        Ok(())
    }
}

/// The members of `s` that are not in `excluded`, order kept.
pub open spec fn filter_not_in(s: Seq<u64>, excluded: Seq<u64>) -> Seq<u64> {
    s.filter(|a: u64| !excluded.contains(a))
}

/// The funds of `s` whose release moment lies after `now`, order kept.
pub open spec fn funds_kept(s: Seq<PendingFund>, now: u64) -> Seq<PendingFund> {
    s.filter(|f: PendingFund| f.release_at > now)
}

/// Every fund kept by the sweep is still before its release moment.
pub proof fn lemma_funds_kept_pred(s: Seq<PendingFund>, now: u64)
    ensures
        forall|i: int|
            0 <= i < funds_kept(s, now).len() ==> (#[trigger] funds_kept(s, now)[i]).release_at
                > now,
    decreases s.len(),
{
    reveal_with_fuel(Seq::filter, 2);
    if s.len() > 0 {
        lemma_funds_kept_pred(s.drop_last(), now);
        let f = funds_kept(s.drop_last(), now);
        if s.last().release_at > now {
            assert(funds_kept(s, now) == f.push(s.last()));
            assert forall|i: int|
                0 <= i < funds_kept(s, now).len() implies (#[trigger] funds_kept(s, now)[i]).release_at
                > now by {
                if i < f.len() {
                    assert(funds_kept(s, now)[i] == f[i]);
                }
            }
        }
    }
}

/// One step of the fund-release sweep: a due fund is unreserved for its
/// owner, an undue one leaves the ledger alone.
pub open spec fn fund_release_step(l: crate::ledger::Ledger, f: PendingFund, now: u64, l2: crate::ledger::Ledger) -> bool {
    if f.release_at <= now {
        let released = crate::ledger::unreserve_released(l.bal(CurrencyId::Native, f.owner), f.amount);
        &&& l2.bal(CurrencyId::Native, f.owner) == (AccountBalance {
            free: (l.free_of(CurrencyId::Native, f.owner) + released) as u128,
            reserved: (l.reserved_of(CurrencyId::Native, f.owner) - released) as u128,
        })
        &&& l.same_except(l2, CurrencyId::Native, f.owner)
    } else {
        l2 == l
    }
}

/// The ledger after the fund-release sweep: the fold of `fund_release_step`
/// over the funds in order.
pub open spec fn funds_chain(
    pre: crate::ledger::Ledger,
    funds: Seq<PendingFund>,
    now: u64,
    post: crate::ledger::Ledger,
) -> bool {
    exists|ls: Seq<crate::ledger::Ledger>|
        {
            &&& ls.len() == funds.len() + 1
            &&& ls[0] == pre
            &&& ls[funds.len() as int] == post
            &&& forall|i: int|
                0 <= i < funds.len() ==> fund_release_step(
                    #[trigger] ls[i],
                    funds[i],
                    now,
                    ls[i + 1],
                )
        }
}

impl World {
    /// The resolver-module effect of terminating `who`: stakes and
    /// delegations are zeroed and scheduled as pending funds with the
    /// undelegation delay, the record is `Terminated`, and the account
    /// leaves the active list.
    pub open spec fn terminate_effect(pre: World, post: World, who: u64) -> bool {
        let wk = who as u128;
        let res = pre.resolvers@[wk];
        let rel = (pre.now + pre.config.undelegate_time) as u64;
        let pn = pre.pending_funds@.len() as int;
        &&& post.resolvers@.dom() == pre.resolvers@.dom().insert(wk)
        &&& forall|k: u128|
            k != wk && pre.resolvers@.contains_key(k) ==> #[trigger] post.resolvers@[k]
                == pre.resolvers@[k]
        &&& post.resolvers@[wk].application_digest == res.application_digest
        &&& post.resolvers@[wk].status == ResolverStatus::Terminated
        &&& post.resolvers@[wk].self_stake == 0
        &&& post.resolvers@[wk].total_stake == 0
        &&& post.resolvers@[wk].delegations@ == Seq::<Delegation>::empty()
        &&& post.resolvers@[wk].updated_at == res.updated_at
        &&& post.active_resolvers@ == seq_remove_u64(pre.active_resolvers@, who)
        &&& post.pending_funds@.len() == pn + 1 + res.delegations@.len()
        &&& post.pending_funds@.subrange(0, pn) == pre.pending_funds@
        &&& post.pending_funds@[pn] == (PendingFund {
            owner: who,
            amount: res.self_stake,
            release_at: rel,
        })
        &&& forall|i: int|
            0 <= i < res.delegations@.len() ==> post.pending_funds@[pn + 1 + i] == (PendingFund {
                owner: (#[trigger] res.delegations@[i]).delegator,
                amount: res.delegations@[i].amount,
                release_at: rel,
            })
        &&& post.events@ == pre.events@.push(Event::ResolverTerminated { account: who })
    }

    /// Terminates the resolver `who`; the caller has checked that the record
    /// exists.
    fn do_terminate(&mut self, who: u64)
        requires
            old(self).resolvers@.contains_key(who as u128),
            old(self).now + old(self).config.undelegate_time <= u64::MAX,
        ensures
            World::terminate_effect(*old(self), *final(self), who),
            World::same_env(*old(self), *final(self)),
            World::same_ledger(*old(self), *final(self)),
            World::same_currencies(*old(self), *final(self)),
            World::same_identities(*old(self), *final(self)),
            World::same_payments(*old(self), *final(self)),
            World::same_disputes(*old(self), *final(self)),
            old(self).resolvers_ok() && old(self).active_resolvers_known()
                ==> final(self).resolvers_ok() && final(self).active_resolvers_known(),
    {
        let wk = who as u128;
        let mut res = self.resolvers.remove(wk).unwrap();
        let rel = self.now + self.config.undelegate_time;
        let ghost pn = old(self).pending_funds@.len() as int;
        self.pending_funds.push(PendingFund { owner: who, amount: res.self_stake, release_at: rel });
        proof {
            assert(self.pending_funds@.subrange(0, pn) =~= old(self).pending_funds@);
        }
        let mut i: usize = 0;
        while i < res.delegations.len()
            invariant
                i <= res.delegations@.len(),
                pn == old(self).pending_funds@.len(),
                self.pending_funds@.len() == pn + 1 + i,
                self.pending_funds@.subrange(0, pn) == old(self).pending_funds@,
                self.pending_funds@[pn] == (PendingFund {
                    owner: who,
                    amount: res.self_stake,
                    release_at: rel,
                }),
                forall|j: int|
                    0 <= j < i ==> self.pending_funds@[pn + 1 + j] == (PendingFund {
                        owner: (#[trigger] res.delegations@[j]).delegator,
                        amount: res.delegations@[j].amount,
                        release_at: rel,
                    }),
                res == old(self).resolvers@[wk],
                rel == old(self).now + old(self).config.undelegate_time,
                self.resolvers@ == old(self).resolvers@.remove(wk),
                self.active_resolvers == old(self).active_resolvers,
                self.events == old(self).events,
                World::same_env(*old(self), *self),
                World::same_ledger(*old(self), *self),
                World::same_currencies(*old(self), *self),
                World::same_identities(*old(self), *self),
                World::same_payments(*old(self), *self),
                World::same_disputes(*old(self), *self),
            decreases res.delegations@.len() - i,
        {
            let d = res.delegations[i];
            self.pending_funds.push(PendingFund { owner: d.delegator, amount: d.amount, release_at: rel });
            proof {
                assert(self.pending_funds@.subrange(0, pn) =~= old(self).pending_funds@);
            }
            i = i + 1;
        }
        res.self_stake = 0;
        res.total_stake = 0;
        res.delegations = Vec::new();
        res.status = ResolverStatus::Terminated;
        remove_all_u64(&mut self.active_resolvers, who);
        self.resolvers.insert(wk, res);
        self.events.push(Event::ResolverTerminated { account: who });
        proof {
            assert(self.resolvers@.dom() =~= old(self).resolvers@.dom().insert(wk));
            if old(self).resolvers_ok() && old(self).active_resolvers_known() {
                assert forall|k: u128| #[trigger]
                    self.resolvers@.contains_key(k) implies {
                    let r = self.resolvers@[k];
                    &&& k <= 0xffffffffffffffffu128
                    &&& r.total_stake == r.self_stake + delegations_sum(r.delegations@)
                    &&& self.active_resolvers@.contains(k as u64) == (r.status is Active)
                } by {
                    lemma_filter_contains_u64(old(self).active_resolvers@, who, k as u64);
                    if k == wk {
                        assert(delegations_sum(Seq::<Delegation>::empty()) == 0);
                    } else {
                        assert(old(self).resolvers@.contains_key(k));
                        if k as u64 == who {
                            assert(k == wk);
                        }
                    }
                }
                assert forall|i2: int|
                    0 <= i2 < self.active_resolvers@.len() implies self.resolvers@.contains_key(
                    (#[trigger] self.active_resolvers@[i2]) as u128,
                ) by {
                    let a = self.active_resolvers@[i2];
                    assert(self.active_resolvers@.contains(a));
                    lemma_filter_contains_u64(old(self).active_resolvers@, who, a);
                    let j = choose|j: int|
                        0 <= j < old(self).active_resolvers@.len() && old(self).active_resolvers@[j]
                            == a;
                    assert(old(self).resolvers@.contains_key(a as u128));
                }
            }
        }
    }

    /// What `resign` does: irreversibly terminates the caller's own
    /// resolver record, scheduling every stake for delayed release.
    pub open spec fn resign_post(pre: World, post: World, who: u64, r: Result<(), Error>) -> bool {
        let found = pre.resolvers@.contains_key(who as u128);
        &&& r.is_ok() == found
        &&& if r.is_ok() {
            &&& World::terminate_effect(pre, post, who)
            &&& World::same_env(pre, post)
            &&& World::same_ledger(pre, post)
            &&& World::same_currencies(pre, post)
            &&& World::same_identities(pre, post)
            &&& World::same_payments(pre, post)
            &&& World::same_disputes(pre, post)
        } else {
            &&& World::unchanged(pre, post)
            &&& r == Result::<(), Error>::Err(Error::NotAResolver)
        }
    }

    /// Leaves the resolver network; stakes are released after the
    /// undelegation delay.
    pub fn resign(&mut self, who: u64) -> (r: Result<(), Error>)
        requires
            old(self).now + old(self).config.undelegate_time <= u64::MAX,
        ensures
            World::resign_post(*old(self), *final(self), who, r),
            old(self).resolvers_ok() && old(self).active_resolvers_known()
                ==> final(self).resolvers_ok() && final(self).active_resolvers_known(),
    {
        if !self.resolvers.contains_key(who as u128) {
            return Err(Error::NotAResolver);
        }
        self.do_terminate(who);
        Ok(())
    }

    /// The index the beacon picks among `n` candidates. The host beacon is
    /// seeded per block with the chain state and the payment key, so the
    /// selection only reduces its output modulo the candidate count.
    pub open spec fn pick_index(beacon: u64, payment_hash: u128, n: int) -> int {
        (beacon as int) % n
    }

    /// Draws one active resolver for a dispute over `payment_hash`,
    /// excluding the already selected ones. Within one block the same
    /// inputs always yield the same resolver.
    pub fn get_resolver(&self, payment_hash: u128, excluded: &Vec<u64>) -> (r: Result<u64, Error>)
        ensures
            ({
                let avail = filter_not_in(self.active_resolvers@, excluded@);
                if avail.len() == 0 {
                    r == Result::<u64, Error>::Err(Error::NoAnyActiveResolver)
                } else {
                    r == Result::<u64, Error>::Ok(
                        avail[World::pick_index(self.beacon, payment_hash, avail.len() as int)],
                    )
                }
            }),
    {
        let mut avail: Vec<u64> = Vec::new();
        let mut i: usize = 0;
        proof {
            assert(self.active_resolvers@.subrange(0, 0) =~= Seq::<u64>::empty());
            assert(filter_not_in(Seq::<u64>::empty(), excluded@) =~= Seq::<u64>::empty());
        }
        while i < self.active_resolvers.len()
            invariant
                i <= self.active_resolvers@.len(),
                avail@ == filter_not_in(self.active_resolvers@.subrange(0, i as int), excluded@),
            decreases self.active_resolvers@.len() - i,
        {
            let a = self.active_resolvers[i];
            proof {
                assert(self.active_resolvers@.subrange(0, i + 1).drop_last()
                    =~= self.active_resolvers@.subrange(0, i as int));
                assert(self.active_resolvers@.subrange(0, i + 1).last()
                    == self.active_resolvers@[i as int]);
                reveal_with_fuel(Seq::filter, 2);
            }
            if !crate::util::contains_u64(excluded, a) {
                avail.push(a);
            }
            i = i + 1;
        }
        proof {
            assert(self.active_resolvers@.subrange(0, self.active_resolvers@.len() as int)
                =~= self.active_resolvers@);
        }
        if avail.len() == 0 {
            return Err(Error::NoAnyActiveResolver);
        }
        let n: u64 = avail.len() as u64;
        let idx: usize = (self.beacon % n) as usize;
        Ok(avail[idx])
    }

    /// Raises a resolver's credibility through the identities module.
    pub fn increase_resolver_credibility(&mut self, resolver_account: u64, amount: u32) -> (r:
        Result<(), Error>)
        ensures
            World::credibility_changed_post(
                *old(self),
                *final(self),
                resolver_account,
                World::increased_credibility(*old(self), resolver_account, amount),
                r,
            ),
            old(self).config.wf() && old(self).credibility_ok() ==> final(self).credibility_ok(),
    {
        self.increase_credibility(resolver_account, amount)
    }

    /// What `decrease_resolver_credibility` does: lowers the identity's
    /// score, and terminates the resolver when the score falls below the
    /// required floor.
    pub open spec fn decrease_resolver_credibility_post(
        pre: World,
        post: World,
        who: u64,
        amount: u32,
        r: Result<(), Error>,
    ) -> bool {
        let wk = who as u128;
        let has_id = pre.identities@.contains_key(wk);
        let nc = World::decreased_credibility(pre, who, amount);
        let terminates = has_id && nc < pre.config.required_credibility;
        let is_res = pre.resolvers@.contains_key(wk);
        &&& r.is_ok() == (has_id && (terminates ==> is_res))
        &&& if r.is_ok() {
            let id = post.identities@[wk];
            let pre_id = pre.identities@[wk];
            &&& post.identities@.dom() == pre.identities@.dom().insert(wk)
            &&& forall|k: u128|
                k != wk && pre.identities@.contains_key(k) ==> #[trigger] post.identities@[k]
                    == pre.identities@[k]
            &&& id.credibility == nc
            &&& id.name == pre_id.name
            &&& id.identity_type == pre_id.identity_type
            &&& id.data == pre_id.data
            &&& id.reviews == pre_id.reviews
            &&& post.evaluators == pre.evaluators
            &&& post.verify_data_requests == pre.verify_data_requests
            &&& World::same_env(pre, post)
            &&& World::same_ledger(pre, post)
            &&& World::same_currencies(pre, post)
            &&& World::same_payments(pre, post)
            &&& World::same_disputes(pre, post)
            &&& if terminates {
                World::terminate_effect(pre, post, who)
            } else {
                World::same_resolvers(pre, post) && post.events == pre.events
            }
        } else {
            &&& World::unchanged(pre, post)
            &&& r == Result::<(), Error>::Err(
                if !has_id {
                    Error::IdentityNotFound
                } else {
                    Error::NotAResolver
                },
            )
        }
    }

    /// Lowers a resolver's credibility; falling below the required floor
    /// terminates the resolver immediately.
    pub fn decrease_resolver_credibility(&mut self, resolver_account: u64, amount: u32) -> (r:
        Result<(), Error>)
        requires
            old(self).now + old(self).config.undelegate_time <= u64::MAX,
        ensures
            World::decrease_resolver_credibility_post(
                *old(self),
                *final(self),
                resolver_account,
                amount,
                r,
            ),
            old(self).config.wf() && old(self).credibility_ok() ==> final(self).credibility_ok(),
            old(self).resolvers_ok() && old(self).active_resolvers_known()
                ==> final(self).resolvers_ok() && final(self).active_resolvers_known(),
    {
        let cred = match self.get_credibility(resolver_account) {
            Err(e) => {
                return Err(e);
            },
            Ok(c) => c,
        };
        let nc = if amount >= cred {
            0
        } else {
            cred - amount
        };
        let terminates = nc < self.config.required_credibility;
        if terminates && !self.resolvers.contains_key(resolver_account as u128) {
            return Err(Error::NotAResolver);
        }
        let dec = self.decrease_credibility(resolver_account, amount);
        proof {
            assert(dec.is_ok());
        }
        if terminates {
            self.do_terminate(resolver_account);
        }
        Ok(())
    }

    /// Sweeps the pending funds: every fund whose release moment has come is
    /// unreserved for its owner and leaves the list.
    pub open spec fn release_pending_funds_post(pre: World, post: World) -> bool {
        &&& post.pending_funds@ == funds_kept(pre.pending_funds@, pre.now)
        &&& funds_chain(pre.ledger, pre.pending_funds@, pre.now, post.ledger)
        &&& post.resolvers == pre.resolvers
        &&& post.active_resolvers == pre.active_resolvers
        &&& World::same_env(pre, post)
        &&& World::same_currencies(pre, post)
        &&& World::same_identities(pre, post)
        &&& World::same_payments(pre, post)
        &&& World::same_disputes(pre, post)
        &&& post.events == pre.events
    }

    /// The per-block deferred pass of the resolver network: releases every
    /// pending fund that has reached its release moment.
    pub fn release_pending_funds(&mut self)
        ensures
            World::release_pending_funds_post(*old(self), *final(self)),
            forall|i: int|
                0 <= i < final(self).pending_funds@.len() ==> (
                #[trigger] final(self).pending_funds@[i]).release_at > final(self).now,
    {
        let ghost pre_funds = old(self).pending_funds@;
        let mut kept: Vec<PendingFund> = Vec::new();
        let mut i: usize = 0;
        let ghost mut ls: Seq<crate::ledger::Ledger> = seq![old(self).ledger];
        proof {
            assert(pre_funds.subrange(0, 0) =~= Seq::<PendingFund>::empty());
            assert(funds_kept(Seq::<PendingFund>::empty(), old(self).now)
                =~= Seq::<PendingFund>::empty());
        }
        while i < self.pending_funds.len()
            invariant
                i <= self.pending_funds@.len(),
                self.pending_funds@ == pre_funds,
                self.now == old(self).now,
                kept@ == funds_kept(pre_funds.subrange(0, i as int), old(self).now),
                ls.len() == i + 1,
                ls[0] == old(self).ledger,
                ls[i as int] == self.ledger,
                forall|j: int|
                    0 <= j < i ==> fund_release_step(
                        #[trigger] ls[j],
                        pre_funds[j],
                        old(self).now,
                        ls[j + 1],
                    ),
                self.resolvers == old(self).resolvers,
                self.active_resolvers == old(self).active_resolvers,
                self.events == old(self).events,
                World::same_env(*old(self), *self),
                World::same_currencies(*old(self), *self),
                World::same_identities(*old(self), *self),
                World::same_payments(*old(self), *self),
                World::same_disputes(*old(self), *self),
            decreases self.pending_funds@.len() - i,
        {
            let f = self.pending_funds[i];
            proof {
                assert(pre_funds.subrange(0, i + 1).drop_last() =~= pre_funds.subrange(0, i as int));
                assert(pre_funds.subrange(0, i + 1).last() == pre_funds[i as int]);
                reveal_with_fuel(Seq::filter, 2);
            }
            if f.release_at <= self.now {
                self.ledger.unreserve(CurrencyId::Native, f.owner, f.amount);
            } else {
                kept.push(f);
            }
            proof {
                ls = ls.push(self.ledger);
            }
            i = i + 1;
        }
        proof {
            assert(pre_funds.subrange(0, pre_funds.len() as int) =~= pre_funds);
        }
        self.pending_funds = kept;
        proof {
            assert(funds_chain(old(self).ledger, pre_funds, old(self).now, self.ledger)) by {
                assert(ls.len() == pre_funds.len() + 1 && ls[0] == old(self).ledger
                    && ls[pre_funds.len() as int] == self.ledger && forall|j: int|
                    0 <= j < pre_funds.len() ==> fund_release_step(
                        #[trigger] ls[j],
                        pre_funds[j],
                        old(self).now,
                        ls[j + 1],
                    ));
            }
            lemma_funds_kept_pred(pre_funds, old(self).now);
        }
    }
}

} // verus!
