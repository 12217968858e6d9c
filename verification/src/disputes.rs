//! The dispute engine: a finalization timer, fight and escalation rounds
//! drawing resolvers from the network, judgment aggregation with majority
//! rule, and a settlement sweep that moves the escrow and distributes the
//! resolver fees.

use vstd::prelude::*;
use crate::hashing::digest_bytes;
use crate::ledger::AccountBalance;
use crate::resolvers::filter_not_in;
use crate::types::{Argument, CurrencyId, Dispute, DisputeStatus, Error, Event, Judgment};
use crate::util::{seq_remove_u128};
use crate::world::World;

verus! {

/// How many judgments in `s` favour the payee.
pub open spec fn payee_votes(s: Seq<(u64, Judgment)>) -> int
    decreases s.len(),
{
    if s.len() == 0 {
        0
    } else {
        payee_votes(s.drop_last()) + (if s.last().1 is ReleaseFundToPayee {
            1int
        } else {
            0int
        })
    }
}

/// The outcome a complete tally yields: the payee on a strict majority,
/// the payer otherwise (ties favour the payer).
pub open spec fn tally_outcome(s: Seq<(u64, Judgment)>) -> Judgment {
    if payee_votes(s) > s.len() - payee_votes(s) {
        Judgment::ReleaseFundToPayee
    } else {
        Judgment::ReleaseFundToPayer
    }
}

/// Whether `who` has already cast a judgment in `s`.
pub open spec fn has_judged(s: Seq<(u64, Judgment)>, who: u64) -> bool {
    exists|i: int| 0 <= i < s.len() && (#[trigger] s[i]).0 == who
}

/// The resolvers drawn after `k` rounds, starting from the exclusion list
/// `base`: each round filters the active list by what was already drawn and
/// lets the beacon pick.
pub open spec fn drawn_resolvers(w: World, payment_hash: u128, base: Seq<u64>, k: nat) -> Seq<u64>
    decreases k,
{
    if k == 0 {
        base
    } else {
        let b2 = drawn_resolvers(w, payment_hash, base, (k - 1) as nat);
        let avail = filter_not_in(w.active_resolvers@, b2);
        if avail.len() == 0 {
            b2
        } else {
            b2.push(avail[World::pick_index(w.beacon, payment_hash, avail.len() as int)])
        }
    }
}

/// Whether all `k` draws find a candidate.
pub open spec fn draws_ok(w: World, payment_hash: u128, base: Seq<u64>, k: nat) -> bool
    decreases k,
{
    if k == 0 {
        true
    } else {
        &&& draws_ok(w, payment_hash, base, (k - 1) as nat)
        &&& filter_not_in(
            w.active_resolvers@,
            drawn_resolvers(w, payment_hash, base, (k - 1) as nat),
        ).len() > 0
    }
}

/// A failed early draw dooms every longer round.
pub proof fn lemma_draws_ok_monotone(w: World, payment_hash: u128, base: Seq<u64>, j: nat, k: nat)
    requires
        j <= k,
        draws_ok(w, payment_hash, base, k),
    ensures
        draws_ok(w, payment_hash, base, j),
    decreases k,
{
    if j < k {
        lemma_draws_ok_monotone(w, payment_hash, base, j, (k - 1) as nat);
    }
}

/// Successful draws grow the selection one by one.
pub proof fn lemma_drawn_len(w: World, payment_hash: u128, base: Seq<u64>, k: nat)
    requires
        draws_ok(w, payment_hash, base, k),
    ensures
        drawn_resolvers(w, payment_hash, base, k).len() == base.len() + k,
    decreases k,
{
    if k > 0 {
        lemma_drawn_len(w, payment_hash, base, (k - 1) as nat);
    }
}

/// Drawing only appends: what the base holds stays.
pub proof fn lemma_drawn_contains(w: World, payment_hash: u128, base: Seq<u64>, k: nat, x: u64)
    requires
        base.contains(x),
    ensures
        drawn_resolvers(w, payment_hash, base, k).contains(x),
    decreases k,
{
    if k > 0 {
        lemma_drawn_contains(w, payment_hash, base, (k - 1) as nat, x);
        let b2 = drawn_resolvers(w, payment_hash, base, (k - 1) as nat);
        let avail = filter_not_in(w.active_resolvers@, b2);
        if avail.len() > 0 {
            let i = choose|i: int| 0 <= i < b2.len() && b2[i] == x;
            assert(b2.push(avail[World::pick_index(w.beacon, payment_hash, avail.len() as int)])[i]
                == x);
        }
    }
}

/// Copies a list of judgments.
fn copy_judgments(v: &Vec<(u64, Judgment)>) -> (out: Vec<(u64, Judgment)>)
    ensures
        out@ == v@,
{
    let mut out: Vec<(u64, Judgment)> = Vec::new();
    let mut i: usize = 0;
    while i < v.len()
        invariant
            i <= v.len(),
            out@ == v@.subrange(0, i as int),
        decreases v.len() - i,
    {
        out.push(v[i]);
        proof {
            assert(out@ =~= v@.subrange(0, i + 1));
        }
        i = i + 1;
    }
    proof {
        assert(v@.subrange(0, v@.len() as int) =~= v@);
    }
    out
}

impl World {
    /// The dispute invariant: no resolver judges twice, and every judgment
    /// comes from a selected resolver.
    pub open spec fn disputes_ok(self) -> bool {
        forall|h: u128| #[trigger]
            self.disputes@.contains_key(h) ==> {
                let d = self.disputes@[h];
                &&& (forall|i: int, j: int|
                    0 <= i < j < d.judgments@.len() ==> (#[trigger] d.judgments@[i]).0 != (
                    #[trigger] d.judgments@[j]).0)
                &&& (forall|i: int|
                    0 <= i < d.judgments@.len() ==> d.resolvers@.contains(
                        (#[trigger] d.judgments@[i]).0,
                    ))
            }
    }

    /// What `create_dispute` does: the payer of a disputable payment
    /// reserves one `DisputeFee` and opens a finalizing dispute that
    /// defaults to releasing the fund back to the payer.
    pub open spec fn create_dispute_post(
        pre: World,
        post: World,
        issuer: u64,
        payment_hash: u128,
        argument: Seq<u8>,
        r: Result<(), Error>,
    ) -> bool {
        let disputable = pre.can_dispute_spec(payment_hash);
        let p = pre.payments@[payment_hash];
        let is_payer = disputable && issuer == p.payer;
        let fee = pre.config.dispute_fee;
        let can_lock = pre.ledger.free_of(CurrencyId::Native, issuer) >= fee
            && pre.ledger.reserved_of(CurrencyId::Native, issuer) + fee <= u128::MAX;
        &&& r.is_ok() == (disputable && is_payer && can_lock)
        &&& if r.is_ok() {
            let d = post.disputes@[payment_hash];
            &&& post.disputes@.dom() == pre.disputes@.dom().insert(payment_hash)
            &&& forall|k: u128|
                k != payment_hash && pre.disputes@.contains_key(k) ==> #[trigger] post.disputes@[k]
                    == pre.disputes@[k]
            &&& d.status is Finalizing
            &&& d.payment_hash == payment_hash
            &&& d.expired_at == pre.now + pre.config.dispute_finalizing_time
            &&& d.arguments@ == seq![
                Argument {
                    provider: p.payer,
                    content_hash: crate::hashing::digest_of(argument) as u64,
                },
            ]
            &&& d.resolvers@ == Seq::<u64>::empty()
            &&& d.judgments@ == Seq::<(u64, Judgment)>::empty()
            &&& d.fee == fee
            &&& d.outcome is ReleaseFundToPayer
            &&& post.finalizing_disputes@ == pre.finalizing_disputes@.push(payment_hash)
            &&& post.ledger.bal(CurrencyId::Native, issuer) == (AccountBalance {
                free: (pre.ledger.free_of(CurrencyId::Native, issuer) - fee) as u128,
                reserved: (pre.ledger.reserved_of(CurrencyId::Native, issuer) + fee) as u128,
            })
            &&& pre.ledger.same_except(post.ledger, CurrencyId::Native, issuer)
            &&& post.events@ == pre.events@.push(
                Event::DisputeCreated { payment_hash, payer: p.payer, payee: p.payee },
            )
            &&& World::same_env(pre, post)
            &&& World::same_currencies(pre, post)
            &&& World::same_identities(pre, post)
            &&& World::same_resolvers(pre, post)
            &&& World::same_payments(pre, post)
        } else {
            &&& World::unchanged(pre, post)
            &&& r == Result::<(), Error>::Err(
                if !disputable {
                    Error::DisputeNotAccepted
                } else if !is_payer {
                    Error::AccessDenied
                } else if pre.ledger.free_of(CurrencyId::Native, issuer) < fee {
                    Error::InsufficientBalance
                } else {
                    Error::Overflow
                },
            )
        }
    }

    /// Opens a dispute over a payment; payer only.
    pub fn create_dispute(&mut self, issuer: u64, payment_hash: u128, argument: Vec<u8>) -> (r:
        Result<(), Error>)
        requires
            old(self).now + old(self).config.dispute_finalizing_time <= u64::MAX,
        ensures
            World::create_dispute_post(*old(self), *final(self), issuer, payment_hash, argument@, r),
            old(self).disputes_ok() ==> final(self).disputes_ok(),
    {
        if !self.can_dispute(payment_hash) {
            return Err(Error::DisputeNotAccepted);
        }
        let (payer, payee) = match self.get_payment(payment_hash) {
            Ok((payer, payee, _, _)) => (payer, payee),
            Err(_) => {
                proof {
                    assert(false);
                }
                (0, 0)
            },
        };
        if issuer != payer {
            return Err(Error::AccessDenied);
        }
        let fee = self.config.dispute_fee;
        if self.ledger.free_balance(CurrencyId::Native, issuer) < fee {
            return Err(Error::InsufficientBalance);
        }
        match self.ledger.reserve(CurrencyId::Native, issuer, fee) {
            Err(e) => {
                return Err(e);
            },
            Ok(()) => {},
        }
        let content_hash = digest_bytes(&argument);
        let expired_at = self.now + self.config.dispute_finalizing_time;
        let mut arguments: Vec<Argument> = Vec::new();
        arguments.push(Argument { provider: payer, content_hash });
        self.disputes.insert(
            payment_hash,
            Dispute {
                status: DisputeStatus::Finalizing,
                payment_hash,
                expired_at,
                arguments,
                resolvers: Vec::new(),
                fee,
                judgments: Vec::new(),
                outcome: Judgment::ReleaseFundToPayer,
            },
        );
        self.finalizing_disputes.push(payment_hash);
        self.events.push(Event::DisputeCreated { payment_hash, payer, payee });
        proof {
            assert(self.disputes@.dom() =~= old(self).disputes@.dom().insert(payment_hash));
        }
        Ok(())
    }

    /// What `fight_dispute` does: the aggrieved party stakes the dispute's
    /// cumulative fee, one more resolver than before is drawn, and the
    /// dispute moves to evaluation.
    pub open spec fn fight_dispute_post(
        pre: World,
        post: World,
        who: u64,
        payment_hash: u128,
        argument: Seq<u8>,
        r: Result<(), Error>,
    ) -> bool {
        let found = pre.disputes@.contains_key(payment_hash);
        let d = pre.disputes@[payment_hash];
        let pay_found = pre.payments@.contains_key(payment_hash);
        let p = pre.payments@[payment_hash];
        let aggrieved = (d.outcome is ReleaseFundToPayee && who == p.payer) || (
        d.outcome is ReleaseFundToPayer && who == p.payee);
        let finalizing = d.status is Finalizing;
        let can_lock = pre.ledger.free_of(CurrencyId::Native, who) >= d.fee
            && pre.ledger.reserved_of(CurrencyId::Native, who) + d.fee <= u128::MAX;
        let k = (d.resolvers@.len() + 1) as nat;
        let ok_draws = draws_ok(pre, payment_hash, d.resolvers@, k);
        &&& r.is_ok() == (found && pay_found && aggrieved && finalizing && can_lock && ok_draws)
        &&& if r.is_ok() {
            let nd = post.disputes@[payment_hash];
            &&& post.disputes@.dom() == pre.disputes@.dom().insert(payment_hash)
            &&& forall|k2: u128|
                k2 != payment_hash && pre.disputes@.contains_key(k2)
                    ==> #[trigger] post.disputes@[k2] == pre.disputes@[k2]
            &&& nd.status is Evaluating
            &&& nd.payment_hash == d.payment_hash
            &&& nd.expired_at == d.expired_at
            &&& nd.arguments@ == d.arguments@.push(
                Argument { provider: who, content_hash: crate::hashing::digest_of(argument) as u64 },
            )
            &&& nd.resolvers@ == drawn_resolvers(pre, payment_hash, d.resolvers@, k)
            &&& nd.fee == d.fee
            &&& nd.judgments == d.judgments
            &&& nd.outcome == d.outcome
            &&& post.finalizing_disputes@ == seq_remove_u128(pre.finalizing_disputes@, payment_hash)
            &&& post.ledger.bal(CurrencyId::Native, who) == (AccountBalance {
                free: (pre.ledger.free_of(CurrencyId::Native, who) - d.fee) as u128,
                reserved: (pre.ledger.reserved_of(CurrencyId::Native, who) + d.fee) as u128,
            })
            &&& pre.ledger.same_except(post.ledger, CurrencyId::Native, who)
            &&& post.events@ == pre.events@.push(
                Event::DisputeFought { payment_hash, payer: p.payer, payee: p.payee },
            )
            &&& World::same_env(pre, post)
            &&& World::same_currencies(pre, post)
            &&& World::same_identities(pre, post)
            &&& World::same_resolvers(pre, post)
            &&& World::same_payments(pre, post)
        } else {
            &&& World::unchanged(pre, post)
            &&& r == Result::<(), Error>::Err(
                if !found {
                    Error::DisputeNotFound
                } else if !pay_found {
                    Error::PaymentNotFound
                } else if !aggrieved {
                    Error::AccessDenied
                } else if !finalizing {
                    Error::ActionForOnlyFinalizingDispute
                } else if pre.ledger.free_of(CurrencyId::Native, who) < d.fee {
                    Error::InsufficientBalance
                } else if pre.ledger.reserved_of(CurrencyId::Native, who) + d.fee > u128::MAX {
                    Error::Overflow
                } else {
                    Error::NoAnyActiveResolver
                },
            )
        }
    }

    /// Fights a finalizing dispute: the aggrieved party stakes the
    /// cumulative fee and a fresh evaluation round begins with one more
    /// resolver.
    #[verifier::loop_isolation(false)]
    pub fn fight_dispute(&mut self, who: u64, payment_hash: u128, argument: Vec<u8>) -> (r: Result<
        (),
        Error,
    >)
        ensures
            World::fight_dispute_post(*old(self), *final(self), who, payment_hash, argument@, r),
            old(self).disputes_ok() ==> final(self).disputes_ok(),
    {
        let (fee, n_resolvers) = match self.disputes.get(payment_hash) {
            None => {
                return Err(Error::DisputeNotFound);
            },
            Some(d) => {
                let finalizing = match d.status {
                    DisputeStatus::Finalizing => true,
                    _ => false,
                };
                let (payer, payee) = match self.get_payment(payment_hash) {
                    Err(e) => {
                        return Err(e);
                    },
                    Ok((payer, payee, _, _)) => (payer, payee),
                };
                let aggrieved = match d.outcome {
                    Judgment::ReleaseFundToPayee => who == payer,
                    Judgment::ReleaseFundToPayer => who == payee,
                };
                if !aggrieved {
                    return Err(Error::AccessDenied);
                }
                if !finalizing {
                    return Err(Error::ActionForOnlyFinalizingDispute);
                }
                (d.fee, d.resolvers.len())
            },
        };
        if self.ledger.free_balance(CurrencyId::Native, who) < fee {
            return Err(Error::InsufficientBalance);
        }
        if fee > u128::MAX - self.ledger.reserved_balance(CurrencyId::Native, who) {
            return Err(Error::Overflow);
        }
        // Draw the new round's resolvers before touching any state.
        let ghost base = self.disputes@[payment_hash].resolvers@;
        let mut selected = match self.disputes.get(payment_hash) {
            Some(d) => crate::identities::copy_u64s(&d.resolvers),
            None => Vec::new(),
        };
        let mut drawn: usize = 0;
        let ghost k: nat = (base.len() + 1) as nat;
        proof {
            assert(selected@ == drawn_resolvers(*self, payment_hash, base, 0));
        }
        while drawn <= n_resolvers
            invariant
                drawn <= n_resolvers + 1,
                n_resolvers == base.len(),
                k == base.len() + 1,
                *self == *old(self),
                selected@ == drawn_resolvers(*self, payment_hash, base, drawn as nat),
                draws_ok(*self, payment_hash, base, drawn as nat),
            decreases n_resolvers + 1 - drawn,
        {
            match self.get_resolver(payment_hash, &selected) {
                Err(_) => {
                    proof {
                        if draws_ok(*self, payment_hash, base, k) {
                            lemma_draws_ok_monotone(
                                *self,
                                payment_hash,
                                base,
                                (drawn + 1) as nat,
                                k,
                            );
                        }
                    }
                    return Err(Error::NoAnyActiveResolver);
                },
                Ok(a) => {
                    selected.push(a);
                },
            }
            let sl = selected.len();
            proof {
                lemma_drawn_len(*self, payment_hash, base, (drawn + 1) as nat);
                assert(drawn + 1 <= sl);
            }
            drawn = drawn + 1;
        }
        match self.ledger.reserve(CurrencyId::Native, who, fee) {
            Err(_) => {
                proof {
                    assert(false);
                }
            },
            Ok(()) => {},
        }
        let content_hash = digest_bytes(&argument);
        let mut d = self.disputes.remove(payment_hash).unwrap();
        let (payer, payee) = match self.get_payment(payment_hash) {
            Ok((payer, payee, _, _)) => (payer, payee),
            Err(_) => {
                proof {
                    assert(false);
                }
                (0, 0)
            },
        };
        d.status = DisputeStatus::Evaluating;
        d.arguments.push(Argument { provider: who, content_hash });
        d.resolvers = selected;
        self.disputes.insert(payment_hash, d);
        crate::util::remove_all_u128(&mut self.finalizing_disputes, payment_hash);
        self.events.push(Event::DisputeFought { payment_hash, payer, payee });
        proof {
            assert(self.disputes@.dom() =~= old(self).disputes@.dom().insert(payment_hash));
            if old(self).disputes_ok() {
                let nd = self.disputes@[payment_hash];
                assert forall|i: int|
                    0 <= i < nd.judgments@.len() implies nd.resolvers@.contains(
                    (#[trigger] nd.judgments@[i]).0,
                ) by {
                    lemma_drawn_contains(
                        *old(self),
                        payment_hash,
                        base,
                        (base.len() + 1) as nat,
                        nd.judgments@[i].0,
                    );
                }
            }
        }
        Ok(())
    }

    /// What `escalate_dispute` does: a party re-asserts its preferred
    /// outcome by staking `DisputeFee` per would-be resolver; no new round
    /// is drawn and the countdown is not reset.
    pub open spec fn escalate_dispute_post(
        pre: World,
        post: World,
        who: u64,
        payment_hash: u128,
        r: Result<(), Error>,
    ) -> bool {
        let pay_found = pre.payments@.contains_key(payment_hash);
        let p = pre.payments@[payment_hash];
        let found = pre.disputes@.contains_key(payment_hash);
        let d = pre.disputes@[payment_hash];
        let is_party = who == p.payer || who == p.payee;
        let finalizing = d.status is Finalizing;
        let extra = pre.config.dispute_fee * (d.resolvers@.len() + 1);
        let extra_ok = extra <= u128::MAX;
        let can_lock = pre.ledger.free_of(CurrencyId::Native, who) >= extra
            && pre.ledger.reserved_of(CurrencyId::Native, who) + extra <= u128::MAX;
        let fee_ok = d.fee + extra <= u128::MAX;
        &&& r.is_ok() == (pay_found && found && is_party && finalizing && extra_ok && can_lock
            && fee_ok)
        &&& if r.is_ok() {
            let nd = post.disputes@[payment_hash];
            &&& post.disputes@.dom() == pre.disputes@.dom().insert(payment_hash)
            &&& forall|k2: u128|
                k2 != payment_hash && pre.disputes@.contains_key(k2)
                    ==> #[trigger] post.disputes@[k2] == pre.disputes@[k2]
            &&& nd.status is Finalizing
            &&& nd.payment_hash == d.payment_hash
            &&& nd.expired_at == d.expired_at
            &&& nd.arguments == d.arguments
            &&& nd.resolvers == d.resolvers
            &&& nd.fee == d.fee + extra
            &&& nd.judgments == d.judgments
            &&& nd.outcome == (if who == p.payer {
                Judgment::ReleaseFundToPayer
            } else {
                Judgment::ReleaseFundToPayee
            })
            &&& post.finalizing_disputes == pre.finalizing_disputes
            &&& post.ledger.bal(CurrencyId::Native, who) == (AccountBalance {
                free: (pre.ledger.free_of(CurrencyId::Native, who) - extra) as u128,
                reserved: (pre.ledger.reserved_of(CurrencyId::Native, who) + extra) as u128,
            })
            &&& pre.ledger.same_except(post.ledger, CurrencyId::Native, who)
            &&& post.events@ == pre.events@.push(
                Event::DisputeEscalated { payment_hash, payer: p.payer, payee: p.payee },
            )
            &&& World::same_env(pre, post)
            &&& World::same_currencies(pre, post)
            &&& World::same_identities(pre, post)
            &&& World::same_resolvers(pre, post)
            &&& World::same_payments(pre, post)
        } else {
            &&& World::unchanged(pre, post)
            &&& r == Result::<(), Error>::Err(
                if !pay_found {
                    Error::PaymentNotFound
                } else if !found {
                    Error::DisputeNotFound
                } else if !is_party {
                    Error::AccessDenied
                } else if !finalizing {
                    Error::ActionForOnlyFinalizingDispute
                } else if !extra_ok {
                    Error::Overflow
                } else if pre.ledger.free_of(CurrencyId::Native, who) < extra {
                    Error::InsufficientBalance
                } else if pre.ledger.reserved_of(CurrencyId::Native, who) + extra > u128::MAX {
                    Error::Overflow
                } else {
                    Error::Overflow
                },
            )
        }
    }

    /// Escalates a finalizing dispute, re-asserting the caller's preferred
    /// outcome.
    pub fn escalate_dispute(&mut self, who: u64, payment_hash: u128) -> (r: Result<(), Error>)
        ensures
            World::escalate_dispute_post(*old(self), *final(self), who, payment_hash, r),
            old(self).disputes_ok() ==> final(self).disputes_ok(),
    {
        let (payer, payee) = match self.get_payment(payment_hash) {
            Err(e) => {
                return Err(e);
            },
            Ok((payer, payee, _, _)) => (payer, payee),
        };
        let (fee, extra) = match self.disputes.get(payment_hash) {
            None => {
                return Err(Error::DisputeNotFound);
            },
            Some(d) => {
                if who != payer && who != payee {
                    return Err(Error::AccessDenied);
                }
                let finalizing = match d.status {
                    DisputeStatus::Finalizing => true,
                    _ => false,
                };
                if !finalizing {
                    return Err(Error::ActionForOnlyFinalizingDispute);
                }
                let extra = match self.config.dispute_fee.checked_mul(
                    (d.resolvers.len() as u128) + 1,
                ) {
                    None => {
                        return Err(Error::Overflow);
                    },
                    Some(x) => x,
                };
                (d.fee, extra)
            },
        };
        if self.ledger.free_balance(CurrencyId::Native, who) < extra {
            return Err(Error::InsufficientBalance);
        }
        if extra > u128::MAX - self.ledger.reserved_balance(CurrencyId::Native, who) {
            return Err(Error::Overflow);
        }
        if fee > u128::MAX - extra {
            return Err(Error::Overflow);
        }
        match self.ledger.reserve(CurrencyId::Native, who, extra) {
            Err(_) => {
                proof {
                    assert(false);
                }
            },
            Ok(()) => {},
        }
        let mut d = self.disputes.remove(payment_hash).unwrap();
        d.fee = d.fee + extra;
        d.outcome = if who == payer {
            Judgment::ReleaseFundToPayer
        } else {
            Judgment::ReleaseFundToPayee
        };
        d.status = DisputeStatus::Finalizing;
        self.disputes.insert(payment_hash, d);
        self.events.push(Event::DisputeEscalated { payment_hash, payer, payee });
        proof {
            assert(self.disputes@.dom() =~= old(self).disputes@.dom().insert(payment_hash));
        }
        Ok(())
    }

    /// What `propose_outcome` does: a selected resolver casts one judgment;
    /// when the last judgment arrives the votes are tallied and the dispute
    /// returns to finalizing with its original deadline.
    pub open spec fn propose_outcome_post(
        pre: World,
        post: World,
        who: u64,
        payment_hash: u128,
        judgment: Judgment,
        r: Result<(), Error>,
    ) -> bool {
        let found = pre.disputes@.contains_key(payment_hash);
        let d = pre.disputes@[payment_hash];
        let is_resolver = d.resolvers@.contains(who);
        let already = has_judged(d.judgments@, who);
        let nj = d.judgments@.push((who, judgment));
        let complete = nj.len() == d.resolvers@.len();
        &&& r.is_ok() == (found && is_resolver && !already)
        &&& if r.is_ok() {
            let nd = post.disputes@[payment_hash];
            &&& post.disputes@.dom() == pre.disputes@.dom().insert(payment_hash)
            &&& forall|k2: u128|
                k2 != payment_hash && pre.disputes@.contains_key(k2)
                    ==> #[trigger] post.disputes@[k2] == pre.disputes@[k2]
            &&& nd.judgments@ == nj
            &&& nd.status == (if complete {
                DisputeStatus::Finalizing
            } else {
                d.status
            })
            &&& nd.outcome == (if complete {
                tally_outcome(nj)
            } else {
                d.outcome
            })
            &&& nd.payment_hash == d.payment_hash
            &&& nd.expired_at == d.expired_at
            &&& nd.arguments == d.arguments
            &&& nd.resolvers == d.resolvers
            &&& nd.fee == d.fee
            &&& post.finalizing_disputes@ == (if complete {
                pre.finalizing_disputes@.push(payment_hash)
            } else {
                pre.finalizing_disputes@
            })
            &&& World::same_ledger(pre, post)
            &&& post.events == pre.events
            &&& World::same_env(pre, post)
            &&& World::same_currencies(pre, post)
            &&& World::same_identities(pre, post)
            &&& World::same_resolvers(pre, post)
            &&& World::same_payments(pre, post)
        } else {
            &&& World::unchanged(pre, post)
            &&& r == Result::<(), Error>::Err(
                if !found {
                    Error::DisputeNotFound
                } else {
                    Error::AccessDenied
                },
            )
        }
    }

    /// Casts a resolver's judgment on a dispute; one judgment per resolver.
    #[verifier::loop_isolation(false)]
    pub fn propose_outcome(&mut self, who: u64, payment_hash: u128, judgment: Judgment) -> (r:
        Result<(), Error>)
        ensures
            World::propose_outcome_post(*old(self), *final(self), who, payment_hash, judgment, r),
            old(self).disputes_ok() ==> final(self).disputes_ok(),
    {
        match self.disputes.get(payment_hash) {
            None => {
                return Err(Error::DisputeNotFound);
            },
            Some(d) => {
                if !crate::util::contains_u64(&d.resolvers, who) {
                    return Err(Error::AccessDenied);
                }
                let mut i: usize = 0;
                while i < d.judgments.len()
                    invariant
                        i <= d.judgments@.len(),
                        forall|j: int| 0 <= j < i ==> (#[trigger] d.judgments@[j]).0 != who,
                    decreases d.judgments@.len() - i,
                {
                    if d.judgments[i].0 == who {
                        proof {
                            assert(d.judgments@[i as int].0 == who);
                        }
                        return Err(Error::AccessDenied);
                    }
                    i = i + 1;
                }
            },
        };
        let mut d = self.disputes.remove(payment_hash).unwrap();
        d.judgments.push((who, judgment));
        let complete = d.judgments.len() == d.resolvers.len();
        if complete {
            let mut payee_n: usize = 0;
            let mut i: usize = 0;
            proof {
                assert(d.judgments@.subrange(0, 0) =~= Seq::<(u64, Judgment)>::empty());
            }
            while i < d.judgments.len()
                invariant
                    i <= d.judgments@.len(),
                    payee_n == payee_votes(d.judgments@.subrange(0, i as int)),
                    payee_n <= i,
                decreases d.judgments@.len() - i,
            {
                proof {
                    assert(d.judgments@.subrange(0, i + 1).drop_last() =~= d.judgments@.subrange(
                        0,
                        i as int,
                    ));
                    assert(d.judgments@.subrange(0, i + 1).last() == d.judgments@[i as int]);
                }
                let is_payee = match d.judgments[i].1 {
                    Judgment::ReleaseFundToPayee => true,
                    Judgment::ReleaseFundToPayer => false,
                };
                if is_payee {
                    payee_n = payee_n + 1;
                }
                i = i + 1;
            }
            proof {
                assert(d.judgments@.subrange(0, d.judgments@.len() as int) =~= d.judgments@);
            }
            d.outcome = if payee_n > d.judgments.len() - payee_n {
                Judgment::ReleaseFundToPayee
            } else {
                Judgment::ReleaseFundToPayer
            };
            d.status = DisputeStatus::Finalizing;
            self.finalizing_disputes.push(payment_hash);
        }
        self.disputes.insert(payment_hash, d);
        proof {
            assert(self.disputes@.dom() =~= old(self).disputes@.dom().insert(payment_hash));
            if old(self).disputes_ok() {
                let nd = self.disputes@[payment_hash];
                let pd = old(self).disputes@[payment_hash];
                assert forall|i2: int, j2: int|
                    0 <= i2 < j2 < nd.judgments@.len() implies (#[trigger] nd.judgments@[i2]).0
                    != (#[trigger] nd.judgments@[j2]).0 by {
                    if j2 < pd.judgments@.len() {
                        assert(nd.judgments@[i2] == pd.judgments@[i2]);
                        assert(nd.judgments@[j2] == pd.judgments@[j2]);
                    } else {
                        assert(nd.judgments@[j2] == (who, judgment));
                        assert(nd.judgments@[i2] == pd.judgments@[i2]);
                        assert(!has_judged(pd.judgments@, who));
                    }
                }
                assert forall|i2: int|
                    0 <= i2 < nd.judgments@.len() implies nd.resolvers@.contains(
                    (#[trigger] nd.judgments@[i2]).0,
                ) by {
                    if i2 < pd.judgments@.len() {
                        assert(nd.judgments@[i2] == pd.judgments@[i2]);
                    } else {
                        assert(nd.judgments@[i2] == (who, judgment));
                    }
                }
            }
        }
        Ok(())
    }

    /// One step of the resolver-fee distribution: `DisputeFee` is
    /// unreserved from the losing party and transferred to the resolver; a
    /// payout that does not fit the ledger is skipped and forfeited.
    pub open spec fn dist_step(
        l: crate::ledger::Ledger,
        a: u64,
        loser: u64,
        fee: u128,
        l2: crate::ledger::Ledger,
    ) -> bool {
        let released = crate::ledger::unreserve_released(l.bal(CurrencyId::Native, loser), fee);
        let mid_free = (l.free_of(CurrencyId::Native, loser) + released) as u128;
        let feasible = mid_free >= fee && (a != loser ==> l.free_of(CurrencyId::Native, a) + fee
            <= u128::MAX);
        if feasible {
            exists|lm: crate::ledger::Ledger|
                #![trigger crate::ledger::unreserve_rel(l, CurrencyId::Native, loser, fee, lm)]
                {
                    &&& crate::ledger::unreserve_rel(l, CurrencyId::Native, loser, fee, lm)
                    &&& crate::ledger::transfer_rel(lm, CurrencyId::Native, loser, a, fee, l2)
                }
        } else {
            l2 == l
        }
    }

    /// The fee distribution as a whole: the fold of `dist_step` over the
    /// dispute's resolvers, in order.
    pub open spec fn dist_chain(
        pre: crate::ledger::Ledger,
        resolvers: Seq<u64>,
        loser: u64,
        fee: u128,
        post: crate::ledger::Ledger,
    ) -> bool {
        exists|ls: Seq<crate::ledger::Ledger>|
            {
                &&& ls.len() == resolvers.len() + 1
                &&& ls[0] == pre
                &&& ls[resolvers.len() as int] == post
                &&& forall|i: int|
                    0 <= i < resolvers.len() ==> World::dist_step(
                        #[trigger] ls[i],
                        resolvers[i],
                        loser,
                        fee,
                        ls[i + 1],
                    )
            }
    }

    /// The identities map after a credibility gain for `a` (absent
    /// identities are left alone).
    pub open spec fn bump_up(
        m: Map<u128, crate::types::Identity>,
        a: u64,
        gain: u32,
        max: u32,
    ) -> Map<u128, crate::types::Identity> {
        if m.contains_key(a as u128) {
            let id = m[a as u128];
            let nc = if id.credibility + gain >= max {
                max
            } else {
                (id.credibility + gain) as u32
            };
            m.insert(a as u128, crate::types::Identity { credibility: nc, ..id })
        } else {
            m
        }
    }

    /// The identities map after a credibility loss for `a` (clamped at
    /// zero; absent identities are left alone).
    pub open spec fn bump_down(
        m: Map<u128, crate::types::Identity>,
        a: u64,
        loss: u32,
    ) -> Map<u128, crate::types::Identity> {
        if m.contains_key(a as u128) {
            let id = m[a as u128];
            let nc = if loss >= id.credibility {
                0
            } else {
                (id.credibility - loss) as u32
            };
            m.insert(a as u128, crate::types::Identity { credibility: nc, ..id })
        } else {
            m
        }
    }

    /// The identities map after every judging resolver is credited: a vote
    /// matching the outcome gains, a mismatch loses.
    pub open spec fn bump_judgments(
        m: Map<u128, crate::types::Identity>,
        s: Seq<(u64, Judgment)>,
        outcome: Judgment,
        gain: u32,
        loss: u32,
        max: u32,
    ) -> Map<u128, crate::types::Identity>
        decreases s.len(),
    {
        if s.len() == 0 {
            m
        } else {
            let m2 = World::bump_judgments(m, s.drop_last(), outcome, gain, loss, max);
            if s.last().1 == outcome {
                World::bump_up(m2, s.last().0, gain, max)
            } else {
                World::bump_down(m2, s.last().0, loss)
            }
        }
    }

    /// Whether the settlement sweep is due for `h` on world `w`: a
    /// finalizing dispute past its deadline whose escrow settlement fits
    /// the ledger. An entry whose settlement does not fit stays queued for
    /// a later block.
    pub open spec fn settle_due(w: World, h: u128) -> bool {
        let d = w.disputes@[h];
        let p = w.payments@[h];
        let released = crate::ledger::unreserve_released(
            w.ledger.bal(p.currency_id, p.payer),
            p.amount,
        );
        let mid_free = (w.ledger.free_of(p.currency_id, p.payer) + released) as u128;
        &&& w.disputes@.contains_key(h)
        &&& w.payments@.contains_key(h)
        &&& d.status is Finalizing
        &&& w.now >= d.expired_at
        &&& (d.outcome is ReleaseFundToPayee ==> mid_free >= p.amount && (p.payer != p.payee
            ==> w.ledger.free_of(p.currency_id, p.payee) + p.amount <= u128::MAX))
    }

    /// One step of the settlement sweep: a due dispute is resolved as its
    /// outcome says; the escrow and the fee stakes move, and the parties'
    /// and resolvers' credibility is adjusted.
    pub open spec fn settle_step(w: World, h: u128, w2: World) -> bool {
        if World::settle_due(w, h) {
            let d = w.disputes@[h];
            let p = w.payments@[h];
            let payee_won = d.outcome is ReleaseFundToPayee;
            let winner = if payee_won {
                p.payee
            } else {
                p.payer
            };
            let party_loser = if payee_won {
                p.payer
            } else {
                p.payee
            };
            let fee_loser = if payee_won {
                p.payer
            } else {
                p.payee
            };
            &&& (if payee_won {
                exists|l1: crate::ledger::Ledger, l2: crate::ledger::Ledger, l3: crate::ledger::Ledger|
                    #![trigger crate::ledger::unreserve_rel(w.ledger, p.currency_id, p.payer, p.amount, l1),
                        crate::ledger::transfer_rel(l1, p.currency_id, p.payer, p.payee, p.amount, l2),
                        crate::ledger::unreserve_rel(l2, CurrencyId::Native, p.payee, d.fee, l3)]
                    {
                        &&& crate::ledger::unreserve_rel(w.ledger, p.currency_id, p.payer, p.amount, l1)
                        &&& crate::ledger::transfer_rel(l1, p.currency_id, p.payer, p.payee, p.amount, l2)
                        &&& crate::ledger::unreserve_rel(l2, CurrencyId::Native, p.payee, d.fee, l3)
                        &&& World::dist_chain(
                            l3,
                            d.resolvers@,
                            p.payer,
                            w.config.dispute_fee,
                            w2.ledger,
                        )
                    }
            } else {
                exists|l1: crate::ledger::Ledger, l2: crate::ledger::Ledger|
                    #![trigger crate::ledger::unreserve_rel(w.ledger, p.currency_id, p.payer, p.amount, l1),
                        crate::ledger::unreserve_rel(l1, CurrencyId::Native, p.payer, d.fee, l2)]
                    {
                        &&& crate::ledger::unreserve_rel(w.ledger, p.currency_id, p.payer, p.amount, l1)
                        &&& crate::ledger::unreserve_rel(l1, CurrencyId::Native, p.payer, d.fee, l2)
                        &&& World::dist_chain(
                            l2,
                            d.resolvers@,
                            p.payee,
                            w.config.dispute_fee,
                            w2.ledger,
                        )
                    }
            })
            &&& w2.disputes@.dom() == w.disputes@.dom()
            &&& forall|k: u128|
                k != h && w.disputes@.contains_key(k) ==> #[trigger] w2.disputes@[k]
                    == w.disputes@[k]
            &&& w2.disputes@[h].status is Resolved
            &&& w2.disputes@[h].payment_hash == d.payment_hash
            &&& w2.disputes@[h].expired_at == d.expired_at
            &&& w2.disputes@[h].arguments == d.arguments
            &&& w2.disputes@[h].resolvers == d.resolvers
            &&& w2.disputes@[h].fee == d.fee
            &&& w2.disputes@[h].judgments == d.judgments
            &&& w2.disputes@[h].outcome == d.outcome
            &&& w2.finalizing_disputes@ == seq_remove_u128(w.finalizing_disputes@, h)
            &&& w2.identities@ == World::bump_judgments(
                World::bump_down(
                    World::bump_up(
                        w.identities@,
                        winner,
                        w.config.credibility_gain,
                        w.config.max_credibility,
                    ),
                    party_loser,
                    w.config.credibility_loss,
                ),
                d.judgments@,
                d.outcome,
                w.config.credibility_gain,
                w.config.credibility_loss,
                w.config.max_credibility,
            )
            &&& w2.evaluators == w.evaluators
            &&& w2.verify_data_requests == w.verify_data_requests
            &&& w2.events@ == w.events@.push(
                Event::DisputeResolved {
                    payment_hash: h,
                    payer: p.payer,
                    payee: p.payee,
                    amount: p.amount,
                    currency_id: p.currency_id,
                },
            )
            &&& World::same_env(w, w2)
            &&& World::same_currencies(w, w2)
            &&& World::same_resolvers(w, w2)
            &&& World::same_payments(w, w2)
        } else {
            w2 == w
        }
    }

    /// The settlement sweep as a whole: the fold of `settle_step` over the
    /// snapshot of the finalizing queue, in order.
    pub open spec fn settle_chain(pre: World, hs: Seq<u128>, post: World) -> bool {
        exists|ws: Seq<World>|
            {
                &&& ws.len() == hs.len() + 1
                &&& ws[0] == pre
                &&& ws[hs.len() as int] == post
                &&& forall|i: int|
                    0 <= i < hs.len() ==> World::settle_step(#[trigger] ws[i], hs[i], ws[i + 1])
            }
    }

    /// The per-block settlement pass: walks the finalizing queue and
    /// resolves every dispute whose deadline has passed, as its current
    /// outcome says.
    /// Settles one queue entry if it is due; leaves the world alone
    /// otherwise.
    #[verifier::loop_isolation(false)]
    #[verifier::rlimit(100)]
    fn settle_entry(&mut self, h: u128)
        ensures
            World::settle_step(*old(self), h, *final(self)),
            old(self).payments_ok() ==> final(self).payments_ok(),
            old(self).disputes_ok() ==> final(self).disputes_ok(),
            old(self).config.wf() && old(self).credibility_ok() ==> final(self).credibility_ok(),
            old(self).resolvers_ok() && old(self).active_resolvers_known()
                ==> final(self).resolvers_ok() && final(self).active_resolvers_known(),
    {
        let mut do_it = false;
        let mut payee_won = false;
        let mut fee: u128 = 0;
        let mut resolvers: Vec<u64> = Vec::new();
        let mut judgments: Vec<(u64, Judgment)> = Vec::new();
        let mut payer: u64 = 0;
        let mut payee: u64 = 0;
        let mut amount: u128 = 0;
        let mut currency_id = CurrencyId::Native;
        match self.disputes.get(h) {
            None => {},
            Some(d) => {
                let finalizing = match d.status {
                    DisputeStatus::Finalizing => true,
                    _ => false,
                };
                if finalizing && self.now >= d.expired_at {
                    match self.get_payment(h) {
                        Err(_) => {},
                        Ok((pr, pe, am, c)) => {
                            let pw = match d.outcome {
                                Judgment::ReleaseFundToPayee => true,
                                Judgment::ReleaseFundToPayer => false,
                            };
                            let reserved = self.ledger.reserved_balance(c, pr);
                            let free = self.ledger.free_balance(c, pr);
                            let rel0 = if am <= reserved {
                                am
                            } else {
                                reserved
                            };
                            let rel1 = if rel0 > u128::MAX - free {
                                u128::MAX - free
                            } else {
                                rel0
                            };
                            let feasible = !pw || (free + rel1 >= am && (pr == pe || am
                                <= u128::MAX - self.ledger.free_balance(c, pe)));
                            if feasible {
                                do_it = true;
                                payee_won = pw;
                                fee = d.fee;
                                resolvers = crate::identities::copy_u64s(&d.resolvers);
                                judgments = copy_judgments(&d.judgments);
                                payer = pr;
                                payee = pe;
                                amount = am;
                                currency_id = c;
                            }
                        },
                    }
                }
            },
        }
        if do_it {
            let ghost l0 = self.ledger;
            self.ledger.unreserve(currency_id, payer, amount);
            let ghost l1 = self.ledger;
            let ghost mut lmid = self.ledger;
            if payee_won {
                match self.ledger.transfer(currency_id, payer, payee, amount) {
                    Ok(()) => {},
                    Err(_) => {
                        proof {
                            assert(false);
                        }
                    },
                }
                proof {
                    lmid = self.ledger;
                }
                self.ledger.unreserve(CurrencyId::Native, payee, fee);
                proof {
                    assert(crate::ledger::unreserve_rel(l0, currency_id, payer, amount, l1));
                    assert(crate::ledger::transfer_rel(l1, currency_id, payer, payee, amount, lmid));
                    assert(crate::ledger::unreserve_rel(
                        lmid,
                        CurrencyId::Native,
                        payee,
                        fee,
                        self.ledger,
                    ));
                }
            } else {
                self.ledger.unreserve(CurrencyId::Native, payer, fee);
                proof {
                    assert(crate::ledger::unreserve_rel(l0, currency_id, payer, amount, l1));
                    assert(crate::ledger::unreserve_rel(
                        l1,
                        CurrencyId::Native,
                        payer,
                        fee,
                        self.ledger,
                    ));
                }
            }
            let ghost l3 = self.ledger;
            let ghost wmid = *self;
            let loser = if payee_won {
                payer
            } else {
                payee
            };
            let dfee = self.config.dispute_fee;
            let ghost mut ls: Seq<crate::ledger::Ledger> = seq![self.ledger];
            let mut ri: usize = 0;
            while ri < resolvers.len()
                invariant
                    ri <= resolvers@.len(),
                    ls.len() == ri + 1,
                    ls[0] == l3,
                    ls[ri as int] == self.ledger,
                    forall|j: int|
                        0 <= j < ri ==> World::dist_step(
                            #[trigger] ls[j],
                            resolvers@[j],
                            loser,
                            dfee,
                            ls[j + 1],
                        ),
                    self.currencies == wmid.currencies,
                    self.accepted_currencies == wmid.accepted_currencies,
                    self.identities == wmid.identities,
                    self.evaluators == wmid.evaluators,
                    self.verify_data_requests == wmid.verify_data_requests,
                    self.resolvers == wmid.resolvers,
                    self.active_resolvers == wmid.active_resolvers,
                    self.pending_funds == wmid.pending_funds,
                    self.latest_payment_id == wmid.latest_payment_id,
                    self.payments == wmid.payments,
                    self.payments_owned == wmid.payments_owned,
                    self.pending_payment_hashes == wmid.pending_payment_hashes,
                    self.fulfilled_payment_hashes == wmid.fulfilled_payment_hashes,
                    self.disputes == wmid.disputes,
                    self.finalizing_disputes == wmid.finalizing_disputes,
                    self.events == wmid.events,
                    self.config == wmid.config,
                    self.now == wmid.now,
                    self.beacon == wmid.beacon,
                decreases resolvers@.len() - ri,
            {
                let a = resolvers[ri];
                let ghost lprev = self.ledger;
                let reserved = self.ledger.reserved_balance(CurrencyId::Native, loser);
                let free = self.ledger.free_balance(CurrencyId::Native, loser);
                let rel0 = if dfee <= reserved {
                    dfee
                } else {
                    reserved
                };
                let rel1 = if rel0 > u128::MAX - free {
                    u128::MAX - free
                } else {
                    rel0
                };
                let feasible = free + rel1 >= dfee && (a == loser || dfee <= u128::MAX
                    - self.ledger.free_balance(CurrencyId::Native, a));
                if feasible {
                    self.ledger.unreserve(CurrencyId::Native, loser, dfee);
                    let ghost lm = self.ledger;
                    match self.ledger.transfer(CurrencyId::Native, loser, a, dfee) {
                        Ok(()) => {},
                        Err(_) => {
                            proof {
                                assert(false);
                            }
                        },
                    }
                    proof {
                        assert(crate::ledger::unreserve_rel(
                            lprev,
                            CurrencyId::Native,
                            loser,
                            dfee,
                            lm,
                        ));
                        assert(World::dist_step(lprev, a, loser, dfee, self.ledger));
                    }
                } else {
                    proof {
                        assert(World::dist_step(lprev, a, loser, dfee, self.ledger));
                    }
                }
                proof {
                    ls = ls.push(self.ledger);
                }
                ri = ri + 1;
            }
            proof {
                assert(World::dist_chain(
                    l3,
                    old(self).disputes@[h].resolvers@,
                    loser,
                    dfee,
                    self.ledger,
                )) by {
                    assert(ls.len() == old(self).disputes@[h].resolvers@.len() + 1 && ls[0] == l3
                        && ls[old(self).disputes@[h].resolvers@.len() as int] == self.ledger
                        && forall|j: int|
                        0 <= j < old(self).disputes@[h].resolvers@.len() ==> World::dist_step(
                            #[trigger] ls[j],
                            old(self).disputes@[h].resolvers@[j],
                            loser,
                            dfee,
                            ls[j + 1],
                        ));
                }
            }
            let ghost l4 = self.ledger;
            // Credibility: the winning party and rightly voting
            // resolvers gain; the losing party and wrongly voting
            // resolvers lose.
            let gain = self.config.credibility_gain;
            let loss = self.config.credibility_loss;
            let maxc = self.config.max_credibility;
            let winner = if payee_won {
                payee
            } else {
                payer
            };
            let party_loser = if payee_won {
                payer
            } else {
                payee
            };
            let ghost m0 = self.identities@;
            let _up = self.increase_credibility(winner, gain);
            proof {
                assert(self.identities@ =~= World::bump_up(m0, winner, gain, maxc));
            }
            let ghost m1 = self.identities@;
            let _down = self.decrease_credibility(party_loser, loss);
            proof {
                assert(self.identities@ =~= World::bump_down(m1, party_loser, loss));
            }
            let ghost m2 = self.identities@;
            let ghost outcome_v = if payee_won {
                Judgment::ReleaseFundToPayee
            } else {
                Judgment::ReleaseFundToPayer
            };
            let mut ji: usize = 0;
            proof {
                assert(judgments@.subrange(0, 0) =~= Seq::<(u64, Judgment)>::empty());
            }
            while ji < judgments.len()
                invariant
                    ji <= judgments@.len(),
                    self.identities@ == World::bump_judgments(
                        m2,
                        judgments@.subrange(0, ji as int),
                        outcome_v,
                        gain,
                        loss,
                        maxc,
                    ),
                    self.currencies == wmid.currencies,
                    self.accepted_currencies == wmid.accepted_currencies,
                    self.evaluators == wmid.evaluators,
                    self.verify_data_requests == wmid.verify_data_requests,
                    self.resolvers == wmid.resolvers,
                    self.active_resolvers == wmid.active_resolvers,
                    self.pending_funds == wmid.pending_funds,
                    self.latest_payment_id == wmid.latest_payment_id,
                    self.payments == wmid.payments,
                    self.payments_owned == wmid.payments_owned,
                    self.pending_payment_hashes == wmid.pending_payment_hashes,
                    self.fulfilled_payment_hashes == wmid.fulfilled_payment_hashes,
                    self.disputes == wmid.disputes,
                    self.finalizing_disputes == wmid.finalizing_disputes,
                    self.events == wmid.events,
                    self.config == wmid.config,
                    self.now == wmid.now,
                    self.beacon == wmid.beacon,
                    self.ledger == l4,
                    old(self).config.wf() && old(self).credibility_ok()
                        ==> self.credibility_ok(),
                decreases judgments@.len() - ji,
            {
                let ghost mprev = self.identities@;
                let (a, j) = judgments[ji];
                proof {
                    assert(judgments@.subrange(0, ji + 1).drop_last() =~= judgments@.subrange(
                        0,
                        ji as int,
                    ));
                    assert(judgments@.subrange(0, ji + 1).last() == judgments@[ji as int]);
                }
                let votes_winner = match (j, payee_won) {
                    (Judgment::ReleaseFundToPayee, true) => true,
                    (Judgment::ReleaseFundToPayer, false) => true,
                    _ => false,
                };
                if votes_winner {
                    let _r = self.increase_credibility(a, gain);
                    proof {
                        assert(self.identities@ =~= World::bump_up(mprev, a, gain, maxc));
                    }
                } else {
                    let _r = self.decrease_credibility(a, loss);
                    proof {
                        assert(self.identities@ =~= World::bump_down(mprev, a, loss));
                    }
                }
                ji = ji + 1;
            }
            proof {
                assert(judgments@.subrange(0, judgments@.len() as int) =~= judgments@);
            }
            let mut d = self.disputes.remove(h).unwrap();
            d.status = DisputeStatus::Resolved;
            self.disputes.insert(h, d);
            crate::util::remove_all_u128(&mut self.finalizing_disputes, h);
            self.events.push(
                Event::DisputeResolved { payment_hash: h, payer, payee, amount, currency_id },
            );
            proof {
                assert(self.disputes@.dom() =~= old(self).disputes@.dom());
                assert(World::settle_step(*old(self), h, *self));
                if old(self).disputes_ok() {
                    assert forall|k2: u128| #[trigger]
                        self.disputes@.contains_key(k2) implies {
                        let dd = self.disputes@[k2];
                        &&& (forall|i2: int, j2: int|
                            0 <= i2 < j2 < dd.judgments@.len() ==> (
                            #[trigger] dd.judgments@[i2]).0 != (#[trigger] dd.judgments@[j2]).0)
                        &&& (forall|i2: int|
                            0 <= i2 < dd.judgments@.len() ==> dd.resolvers@.contains(
                                (#[trigger] dd.judgments@[i2]).0,
                            ))
                    } by {
                        assert(old(self).disputes@.contains_key(k2));
                        if k2 != h {
                            assert(self.disputes@[k2] == old(self).disputes@[k2]);
                        } else {
                            assert(self.disputes@[k2].judgments == old(self).disputes@[k2].judgments);
                            assert(self.disputes@[k2].resolvers == old(self).disputes@[k2].resolvers);
                        }
                    }
                }
            }
        } else {
            proof {
                assert(World::settle_step(*old(self), h, *self));
            }
        }
    }

    pub fn process_finalizing_disputes(&mut self)
        ensures
            World::settle_chain(*old(self), old(self).finalizing_disputes@, *final(self)),
            old(self).payments_ok() ==> final(self).payments_ok(),
            old(self).disputes_ok() ==> final(self).disputes_ok(),
            old(self).config.wf() && old(self).credibility_ok() ==> final(self).credibility_ok(),
            old(self).resolvers_ok() && old(self).active_resolvers_known()
                ==> final(self).resolvers_ok() && final(self).active_resolvers_known(),
    {
        let snapshot = crate::util::copy_u128s(&self.finalizing_disputes);
        let ghost mut ws: Seq<World> = seq![*old(self)];
        let mut i: usize = 0;
        while i < snapshot.len()
            invariant
                i <= snapshot@.len(),
                ws.len() == i + 1,
                ws[0] == *old(self),
                ws[i as int] == *self,
                forall|j: int|
                    0 <= j < i ==> World::settle_step(#[trigger] ws[j], snapshot@[j], ws[j + 1]),
                self.config == old(self).config,
                old(self).payments_ok() ==> self.payments_ok(),
                old(self).disputes_ok() ==> self.disputes_ok(),
                old(self).config.wf() && old(self).credibility_ok() ==> self.credibility_ok(),
                old(self).resolvers_ok() && old(self).active_resolvers_known()
                    ==> self.resolvers_ok() && self.active_resolvers_known(),
            decreases snapshot@.len() - i,
        {
            let ghost wprev = *self;
            let h = snapshot[i];
            self.settle_entry(h);
            proof {
                ws = ws.push(*self);
            }
            i = i + 1;
        }
        proof {
            assert(World::settle_chain(*old(self), old(self).finalizing_disputes@, *self)) by {
                assert(ws.len() == old(self).finalizing_disputes@.len() + 1 && ws[0] == *old(self)
                    && ws[old(self).finalizing_disputes@.len() as int] == *self && forall|j: int|
                    0 <= j < old(self).finalizing_disputes@.len() ==> World::settle_step(
                        #[trigger] ws[j],
                        old(self).finalizing_disputes@[j],
                        ws[j + 1],
                    ));
            }
        }
    }

    /// Proposing a second judgment for the same dispute by the same
    /// resolver is rejected with `AccessDenied` and leaves the whole world,
    /// the dispute's judgments included, unchanged.
    pub proof fn lemma_propose_twice_rejected(
        w0: World,
        w1: World,
        w2: World,
        who: u64,
        payment_hash: u128,
        j1: Judgment,
        j2: Judgment,
        r2: Result<(), Error>,
    )
        requires
            World::propose_outcome_post(w0, w1, who, payment_hash, j1, Ok(())),
            World::propose_outcome_post(w1, w2, who, payment_hash, j2, r2),
        ensures
            r2 == Result::<(), Error>::Err(Error::AccessDenied),
            World::unchanged(w1, w2),
    {
        let nj = w0.disputes@[payment_hash].judgments@.push((who, j1));
        assert(nj[nj.len() - 1].0 == who);
        assert(has_judged(w1.disputes@[payment_hash].judgments@, who));
    }
}

} // verus!
