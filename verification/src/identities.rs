//! The identities module: self-sovereign identity records with credibility
//! scores, syntactic validation of domain and email fields, reviews, and the
//! evaluator-based verification workflow.

use vstd::prelude::*;
use crate::hashing::{digest_bytes, digest_of};
use crate::ledger::AccountBalance;
use crate::types::{
    Error, Event, Identity, IdentityField, IdentityFieldInput, IdentityType, Evaluator,
    VerifyMethod, VerifyRequest, CurrencyId,
};
use crate::world::World;

verus! {

/// The `.` byte.
pub const DOT: u8 = 46;

/// The `@` byte.
pub const AT: u8 = 64;

/// A syntactically valid domain: at least five bytes, holds a dot, does not
/// start or end with a dot, and never two dots in a row.
pub open spec fn is_valid_domain(s: Seq<u8>) -> bool {
    &&& s.len() >= 5
    &&& exists|i: int| 0 <= i < s.len() && #[trigger] s[i] == DOT
    &&& s[0] != DOT
    &&& s[s.len() - 1] != DOT
    &&& forall|i: int| 0 <= i < s.len() - 1 ==> !(#[trigger] s[i] == DOT && s[i + 1] == DOT)
}

/// A syntactically valid email: at least five bytes, exactly one `@` with a
/// non-empty left side, and a valid domain on the right side.
pub open spec fn is_valid_email(s: Seq<u8>) -> bool {
    &&& s.len() >= 5
    &&& exists|i: int|
        {
            &&& 0 < i < s.len()
            &&& #[trigger] s[i] == AT
            &&& forall|j: int| 0 <= j < s.len() && j != i ==> s[j] != AT
            &&& is_valid_domain(s.subrange(i + 1, s.len() as int))
        }
}

/// Whether a data field passes its method's syntactic validation.
pub open spec fn field_valid(method: VerifyMethod, value: Seq<u8>) -> bool {
    match method {
        VerifyMethod::Domain => is_valid_domain(value),
        VerifyMethod::Email => is_valid_email(value),
        _ => true,
    }
}

/// The error an invalid field of the given method reports.
pub open spec fn field_error(method: VerifyMethod) -> Error {
    match method {
        VerifyMethod::Domain => Error::InvalidDomain,
        _ => Error::InvalidEmail,
    }
}

/// All submitted fields pass validation.
pub open spec fn inputs_valid(s: Seq<IdentityFieldInput>) -> bool {
    forall|i: int| 0 <= i < s.len() ==> #[trigger] field_valid(s[i].verify_method, s[i].value@)
}

/// The error of the first invalid field.
pub open spec fn inputs_error(s: Seq<IdentityFieldInput>) -> Error
    decreases s.len(),
{
    if s.len() == 0 {
        Error::InvalidDomain
    } else if !field_valid(s[0].verify_method, s[0].value@) {
        field_error(s[0].verify_method)
    } else {
        inputs_error(s.drop_first())
    }
}

proof fn lemma_inputs_error_at(s: Seq<IdentityFieldInput>, i: int)
    requires
        0 <= i < s.len(),
        !field_valid(s[i].verify_method, s[i].value@),
        forall|j: int| 0 <= j < i ==> #[trigger] field_valid(s[j].verify_method, s[j].value@),
    ensures
        inputs_error(s) == field_error(s[i].verify_method),
    decreases i,
{
    if i > 0 {
        lemma_inputs_error_at(s.drop_first(), i - 1);
    }
}

/// The stored shape of freshly submitted fields: same name, value and
/// method, not yet verified.
pub open spec fn fields_from_inputs(inputs: Seq<IdentityFieldInput>, data: Seq<IdentityField>) -> bool {
    &&& data.len() == inputs.len()
    &&& forall|i: int|
        0 <= i < inputs.len() ==> {
            &&& (#[trigger] data[i]).name@ == inputs[i].name@
            &&& data[i].value@ == inputs[i].value@
            &&& data[i].verify_method == inputs[i].verify_method
            &&& !data[i].is_verified
            &&& data[i].verify_by.is_none()
        }
}

/// Copies a byte string.
pub fn copy_bytes(v: &Vec<u8>) -> (out: Vec<u8>)
    ensures
        out@ == v@,
{
    let mut out: Vec<u8> = Vec::new();
    let mut i: usize = 0;
    while i < v.len()
        invariant
            i <= v.len(),
            out@ == v@.subrange(0, i as int),
        decreases v.len() - i,
    {
        out.push(v[i]);
        proof {
            assert(out@ =~= v@.subrange(0, i + 1));
        }
        i = i + 1;
    }
    proof {
        assert(v@.subrange(0, v@.len() as int) =~= v@);
    }
    out
}

/// The tail of `v` from `start` on.
fn tail_from(v: &Vec<u8>, start: usize) -> (out: Vec<u8>)
    requires
        start <= v@.len(),
    ensures
        out@ == v@.subrange(start as int, v@.len() as int),
{
    let mut out: Vec<u8> = Vec::new();
    let mut i: usize = start;
    while i < v.len()
        invariant
            start <= i <= v.len(),
            out@ == v@.subrange(start as int, i as int),
        decreases v.len() - i,
    {
        out.push(v[i]);
        proof {
            assert(out@ =~= v@.subrange(start as int, i + 1));
        }
        i = i + 1;
    }
    out
}

/// Decides domain validity.
pub fn check_domain(v: &Vec<u8>) -> (r: bool)
    ensures
        r == is_valid_domain(v@),
{
    if v.len() < 5 {
        return false;
    }
    if v[0] == DOT || v[v.len() - 1] == DOT {
        return false;
    }
    let mut has_dot = false;
    let mut i: usize = 0;
    while i < v.len()
        invariant
            i <= v.len(),
            has_dot == exists|j: int| 0 <= j < i && #[trigger] v@[j] == DOT,
            forall|j: int| 0 <= j < i && j < v@.len() - 1 ==> !(#[trigger] v@[j] == DOT && v@[j + 1] == DOT),
        decreases v.len() - i,
    {
        if v[i] == DOT {
            if i + 1 < v.len() && v[i + 1] == DOT {
                return false;
            }
            has_dot = true;
        }
        i = i + 1;
    }
    has_dot
}

/// Decides email validity.
pub fn check_email(v: &Vec<u8>) -> (r: bool)
    ensures
        r == is_valid_email(v@),
{
    if v.len() < 5 {
        return false;
    }
    // Find the first `@`.
    let mut at: usize = 0;
    let mut found = false;
    let mut i: usize = 0;
    while i < v.len()
        invariant_except_break
            i <= v.len(),
            !found,
            forall|j: int| 0 <= j < i ==> v@[j] != AT,
        ensures
            found ==> at < v@.len() && v@[at as int] == AT && forall|j: int|
                0 <= j < at ==> v@[j] != AT,
            !found ==> forall|j: int| 0 <= j < v@.len() ==> v@[j] != AT,
        decreases v.len() - i,
    {
        if v[i] == AT {
            at = i;
            found = true;
            break;
        }
        i = i + 1;
    }
    if !found {
        return false;
    }
    // Any second `@` disqualifies.
    let mut j: usize = at + 1;
    while j < v.len()
        invariant
            at < j <= v.len(),
            v@[at as int] == AT,
            forall|k: int| at < k < j ==> v@[k] != AT,
            forall|k: int| 0 <= k < at ==> v@[k] != AT,
        decreases v.len() - j,
    {
        if v[j] == AT {
            proof {
                assert forall|i2: int|
                    !(0 < i2 < v@.len() && v@[i2] == AT && (forall|j2: int|
                        0 <= j2 < v@.len() && j2 != i2 ==> v@[j2] != AT) && is_valid_domain(
                        v@.subrange(i2 + 1, v@.len() as int),
                    )) by {
                    if 0 < i2 < v@.len() && v@[i2] == AT {
                        if i2 != at as int {
                            assert(v@[at as int] == AT);
                        } else {
                            assert(v@[j as int] == AT && j as int != i2);
                        }
                    }
                }
            }
            return false;
        }
        j = j + 1;
    }
    if at == 0 {
        return false;
    }
    let tail = tail_from(v, at + 1);
    let dom_ok = check_domain(&tail);
    proof {
        if dom_ok {
            assert(0 < (at as int) && (at as int) < v@.len() && v@[at as int] == AT && (forall|j2: int|
                0 <= j2 < v@.len() && j2 != at as int ==> v@[j2] != AT) && is_valid_domain(
                v@.subrange(at as int + 1, v@.len() as int),
            ));
        } else {
            assert forall|i2: int|
                !(0 < i2 < v@.len() && v@[i2] == AT && (forall|j2: int|
                    0 <= j2 < v@.len() && j2 != i2 ==> v@[j2] != AT) && is_valid_domain(
                    v@.subrange(i2 + 1, v@.len() as int),
                )) by {
                if 0 < i2 < v@.len() && v@[i2] == AT && (forall|j2: int|
                    0 <= j2 < v@.len() && j2 != i2 ==> v@[j2] != AT) {
                    assert(i2 == at as int);
                }
            }
        }
    }
    dom_ok
}

/// Validates one submitted field.
pub fn check_field(f: &IdentityFieldInput) -> (r: Result<(), Error>)
    ensures
        r.is_ok() == field_valid(f.verify_method, f.value@),
        !r.is_ok() ==> r == Result::<(), Error>::Err(field_error(f.verify_method)),
{
    match f.verify_method {
        VerifyMethod::Domain => {
            if check_domain(&f.value) {
                Ok(())
            } else {
                Err(Error::InvalidDomain)
            }
        },
        VerifyMethod::Email => {
            if check_email(&f.value) {
                Ok(())
            } else {
                Err(Error::InvalidEmail)
            }
        },
        _ => Ok(()),
    }
}

/// Validates a list of submitted fields, reporting the first failure.
pub fn check_inputs(data: &Vec<IdentityFieldInput>) -> (r: Result<(), Error>)
    ensures
        r.is_ok() == inputs_valid(data@),
        !r.is_ok() ==> r == Result::<(), Error>::Err(inputs_error(data@)),
{
    let mut i: usize = 0;
    while i < data.len()
        invariant
            i <= data.len(),
            forall|j: int|
                0 <= j < i ==> #[trigger] field_valid(data@[j].verify_method, data@[j].value@),
        decreases data.len() - i,
    {
        match check_field(&data[i]) {
            Err(e) => {
                proof {
                    lemma_inputs_error_at(data@, i as int);
                }
                return Err(e);
            },
            Ok(()) => {},
        }
        i = i + 1;
    }
    Ok(())
}

impl IdentityField {
    /// Turns a submitted field into its stored, unverified shape.
    pub fn from_identity_field_input(input: &IdentityFieldInput) -> (f: IdentityField)
        ensures
            f.name@ == input.name@,
            f.value@ == input.value@,
            f.verify_method == input.verify_method,
            !f.is_verified,
            f.verify_by.is_none(),
    {
        IdentityField {
            name: copy_bytes(&input.name),
            value: copy_bytes(&input.value),
            verify_method: input.verify_method,
            is_verified: false,
            verify_by: None,
        }
    }
}

/// Turns every submitted field into its stored shape.
fn fields_of_inputs(data: &Vec<IdentityFieldInput>) -> (out: Vec<IdentityField>)
    ensures
        fields_from_inputs(data@, out@),
{
    let mut out: Vec<IdentityField> = Vec::new();
    let mut i: usize = 0;
    while i < data.len()
        invariant
            i <= data.len(),
            out@.len() == i,
            fields_from_inputs(data@.subrange(0, i as int), out@),
        decreases data.len() - i,
    {
        out.push(IdentityField::from_identity_field_input(&data[i]));
        i = i + 1;
    }
    proof {
        assert(data@.subrange(0, data@.len() as int) =~= data@);
    }
    out
}

impl World {
    /// Every identity's credibility stays within `MaxCredibility`.
    pub open spec fn credibility_ok(self) -> bool {
        forall|k: u128| #[trigger]
            self.identities@.contains_key(k) ==> self.identities@[k].credibility
                <= self.config.max_credibility
    }

    /// Frame for operations that rewrite one identity record and leave the
    /// rest of the world alone (apart from the event log).
    pub open spec fn identities_frame(pre: World, post: World, who_k: u128) -> bool {
        &&& post.identities@.dom() == pre.identities@.dom().insert(who_k)
        &&& forall|k: u128|
            k != who_k && pre.identities@.contains_key(k) ==> #[trigger] post.identities@[k]
                == pre.identities@[k]
        &&& post.evaluators == pre.evaluators
        &&& post.verify_data_requests == pre.verify_data_requests
        &&& World::same_env(pre, post)
        &&& World::same_ledger(pre, post)
        &&& World::same_currencies(pre, post)
        &&& World::same_resolvers(pre, post)
        &&& World::same_payments(pre, post)
        &&& World::same_disputes(pre, post)
    }

    /// What `create_identity` does: one record per account, fields validated
    /// syntactically, credibility starting at `InitialCredibility`.
    pub open spec fn create_identity_post(
        pre: World,
        post: World,
        who: u64,
        name: Vec<u8>,
        identity_type: IdentityType,
        data: Seq<IdentityFieldInput>,
        r: Result<(), Error>,
    ) -> bool {
        let wk = who as u128;
        let existed = pre.identities@.contains_key(wk);
        &&& r.is_ok() == (!existed && inputs_valid(data))
        &&& if r.is_ok() {
            let id = post.identities@[wk];
            &&& World::identities_frame(pre, post, wk)
            &&& !existed
            &&& id.name == name
            &&& id.identity_type == identity_type
            &&& id.credibility == pre.config.initial_credibility
            &&& fields_from_inputs(data, id.data@)
            &&& id.reviews@ == Seq::<crate::types::IdentityReview>::empty()
            &&& post.events@ == pre.events@.push(Event::IdentityCreated { account_id: who })
        } else {
            &&& World::unchanged(pre, post)
            &&& r == Result::<(), Error>::Err(
                if existed {
                    Error::IdentityExisted
                } else {
                    inputs_error(data)
                },
            )
        }
    }

    /// Creates an identity for `who`.
    pub fn create_identity(
        &mut self,
        who: u64,
        name: Vec<u8>,
        identity_type: IdentityType,
        data: Vec<IdentityFieldInput>,
    ) -> (r: Result<(), Error>)
        ensures
            World::create_identity_post(*old(self), *final(self), who, name, identity_type, data@, r),
            old(self).config.wf() && old(self).credibility_ok() ==> final(self).credibility_ok(),
    {
        if self.identities.contains_key(who as u128) {
            return Err(Error::IdentityExisted);
        }
        match check_inputs(&data) {
            Err(e) => {
                return Err(e);
            },
            Ok(()) => {},
        }
        let fields = fields_of_inputs(&data);
        self.identities.insert(
            who as u128,
            Identity {
                name,
                identity_type,
                credibility: self.config.initial_credibility,
                data: fields,
                reviews: Vec::new(),
            },
        );
        self.events.push(Event::IdentityCreated { account_id: who });
        proof {
            assert(self.identities@.dom() =~= old(self).identities@.dom().insert(who as u128));
        }
        Ok(())
    }

    /// What `update_identity` does: overwrites the name and/or the data of
    /// an existing record; reviews and credibility stay.
    pub open spec fn update_identity_post(
        pre: World,
        post: World,
        who: u64,
        name: Option<Vec<u8>>,
        data: Option<Vec<IdentityFieldInput>>,
        emit: bool,
        r: Result<(), Error>,
    ) -> bool {
        let wk = who as u128;
        let found = pre.identities@.contains_key(wk);
        let data_ok = match data {
            Some(d) => inputs_valid(d@),
            None => true,
        };
        &&& r.is_ok() == (found && data_ok)
        &&& if r.is_ok() {
            let id = post.identities@[wk];
            let pre_id = pre.identities@[wk];
            &&& World::identities_frame(pre, post, wk)
            &&& found
            &&& id.name == (match name {
                Some(n) => n,
                None => pre_id.name,
            })
            &&& (match data {
                Some(d) => fields_from_inputs(d@, id.data@),
                None => id.data == pre_id.data,
            })
            &&& id.identity_type == pre_id.identity_type
            &&& id.credibility == pre_id.credibility
            &&& id.reviews == pre_id.reviews
            &&& post.events@ == if emit {
                pre.events@.push(Event::IdentityUpdated { account_id: who })
            } else {
                pre.events@
            }
        } else {
            &&& World::unchanged(pre, post)
            &&& r == Result::<(), Error>::Err(
                if !found {
                    Error::IdentityNotFound
                } else {
                    inputs_error(data.unwrap()@)
                },
            )
        }
    }

    /// Overwrites the name and/or data of `who`'s identity.
    pub fn update_identity(
        &mut self,
        who: u64,
        name: Option<Vec<u8>>,
        data: Option<Vec<IdentityFieldInput>>,
    ) -> (r: Result<(), Error>)
        ensures
            World::update_identity_post(*old(self), *final(self), who, name, data, true, r),
            old(self).config.wf() && old(self).credibility_ok() ==> final(self).credibility_ok(),
    {
        if !self.identities.contains_key(who as u128) {
            return Err(Error::IdentityNotFound);
        }
        let new_data = match &data {
            Some(d) => {
                match check_inputs(d) {
                    Err(e) => {
                        return Err(e);
                    },
                    Ok(()) => Some(fields_of_inputs(d)),
                }
            },
            None => None,
        };
        let mut id = self.identities.remove(who as u128).unwrap();
        match name {
            Some(n) => {
                id.name = n;
            },
            None => {},
        }
        match new_data {
            Some(d) => {
                id.data = d;
            },
            None => {},
        }
        self.identities.insert(who as u128, id);
        self.events.push(Event::IdentityUpdated { account_id: who });
        proof {
            assert(self.identities@.dom() =~= old(self).identities@.dom().insert(who as u128));
        }
        Ok(())
    }

    /// What `remove_identity` does: clears the name and the data fields but
    /// preserves the reviews and the credibility.
    pub open spec fn remove_identity_post(
        pre: World,
        post: World,
        who: u64,
        r: Result<(), Error>,
    ) -> bool {
        let wk = who as u128;
        let found = pre.identities@.contains_key(wk);
        &&& r.is_ok() == found
        &&& if r.is_ok() {
            let id = post.identities@[wk];
            let pre_id = pre.identities@[wk];
            &&& World::identities_frame(pre, post, wk)
            &&& id.name@ == Seq::<u8>::empty()
            &&& id.data@ == Seq::<IdentityField>::empty()
            &&& id.identity_type == pre_id.identity_type
            &&& id.credibility == pre_id.credibility
            &&& id.reviews == pre_id.reviews
            &&& post.events@ == pre.events@.push(Event::IdentityRemoved { account_id: who })
        } else {
            &&& World::unchanged(pre, post)
            &&& r == Result::<(), Error>::Err(Error::IdentityNotFound)
        }
    }

    /// Clears `who`'s identity record, keeping its reviews.
    pub fn remove_identity(&mut self, who: u64) -> (r: Result<(), Error>)
        ensures
            World::remove_identity_post(*old(self), *final(self), who, r),
            old(self).config.wf() && old(self).credibility_ok() ==> final(self).credibility_ok(),
    {
        if !self.identities.contains_key(who as u128) {
            return Err(Error::IdentityNotFound);
        }
        let mut id = self.identities.remove(who as u128).unwrap();
        id.name = Vec::new();
        id.data = Vec::new();
        self.identities.insert(who as u128, id);
        self.events.push(Event::IdentityRemoved { account_id: who });
        proof {
            assert(self.identities@.dom() =~= old(self).identities@.dom().insert(who as u128));
        }
        Ok(())
    }
}

/// Copies a vector of positions.
pub fn copy_u64s(v: &Vec<u64>) -> (out: Vec<u64>)
    ensures
        out@ == v@,
{
    let mut out: Vec<u64> = Vec::new();
    let mut i: usize = 0;
    while i < v.len()
        invariant
            i <= v.len(),
            out@ == v@.subrange(0, i as int),
        decreases v.len() - i,
    {
        out.push(v[i]);
        proof {
            assert(out@ =~= v@.subrange(0, i + 1));
        }
        i = i + 1;
    }
    proof {
        assert(v@.subrange(0, v@.len() as int) =~= v@);
    }
    out
}

/// The index of the first pending request by `account`, if any.
pub open spec fn first_request_index(reqs: Seq<VerifyRequest>, account: u64) -> int
    decreases reqs.len(),
{
    if reqs.len() == 0 {
        0
    } else if reqs[0].requestor == account {
        0
    } else {
        1 + first_request_index(reqs.drop_first(), account)
    }
}

/// Whether some pending request by `account` exists.
pub open spec fn has_request(reqs: Seq<VerifyRequest>, account: u64) -> bool {
    exists|i: int| 0 <= i < reqs.len() && (#[trigger] reqs[i]).requestor == account
}

proof fn lemma_first_request_index(reqs: Seq<VerifyRequest>, account: u64)
    requires
        has_request(reqs, account),
    ensures
        0 <= first_request_index(reqs, account) < reqs.len(),
        reqs[first_request_index(reqs, account)].requestor == account,
        forall|j: int| 0 <= j < first_request_index(reqs, account) ==> (#[trigger] reqs[j]).requestor != account,
    decreases reqs.len(),
{
    if reqs.len() > 0 && reqs[0].requestor != account {
        let i = choose|i: int| 0 <= i < reqs.len() && (#[trigger] reqs[i]).requestor == account;
        assert(reqs.drop_first()[i - 1].requestor == account);
        lemma_first_request_index(reqs.drop_first(), account);
        assert forall|j: int|
            0 <= j < first_request_index(reqs, account) implies (#[trigger] reqs[j]).requestor
            != account by {
            if j > 0 {
                assert(reqs.drop_first()[j - 1] == reqs[j]);
            }
        }
    }
}

/// The transcript's positions match the request's positions exactly, in
/// order.
pub open spec fn transcript_matches(transcript: Seq<(u64, bool)>, positions: Seq<u64>) -> bool {
    &&& transcript.len() == positions.len()
    &&& forall|i: int| 0 <= i < transcript.len() ==> (#[trigger] transcript[i]).0 == positions[i]
}

impl World {
    /// What `update_identity_data` does: replaces the field at `position`
    /// with the freshly submitted, unverified one.
    pub open spec fn update_identity_data_post(
        pre: World,
        post: World,
        who: u64,
        position: u64,
        f: IdentityFieldInput,
        r: Result<(), Error>,
    ) -> bool {
        let wk = who as u128;
        let valid = field_valid(f.verify_method, f.value@);
        let found = pre.identities@.contains_key(wk);
        &&& r.is_ok() == (valid && found)
        &&& if r.is_ok() {
            let id = post.identities@[wk];
            let pre_id = pre.identities@[wk];
            &&& World::identities_frame(pre, post, wk)
            &&& id.data@.len() == pre_id.data@.len()
            &&& forall|j: int|
                0 <= j < pre_id.data@.len() && j != position ==> #[trigger] id.data@[j]
                    == pre_id.data@[j]
            &&& id.data@[position as int].name@ == f.name@
            &&& id.data@[position as int].value@ == f.value@
            &&& id.data@[position as int].verify_method == f.verify_method
            &&& !id.data@[position as int].is_verified
            &&& id.data@[position as int].verify_by.is_none()
            &&& id.name == pre_id.name
            &&& id.identity_type == pre_id.identity_type
            &&& id.credibility == pre_id.credibility
            &&& id.reviews == pre_id.reviews
            &&& post.events@ == pre.events@.push(Event::IdentityUpdated { account_id: who })
        } else {
            &&& World::unchanged(pre, post)
            &&& r == Result::<(), Error>::Err(
                if !valid {
                    field_error(f.verify_method)
                } else {
                    Error::IdentityNotFound
                },
            )
        }
    }

    /// Replaces one data field of `who`'s identity.
    pub fn update_identity_data(
        &mut self,
        who: u64,
        position: u64,
        data_field: IdentityFieldInput,
    ) -> (r: Result<(), Error>)
        requires
            field_valid(data_field.verify_method, data_field.value@) && old(
                self,
            ).identities@.contains_key(who as u128) ==> (position as int) < old(
                self,
            ).identities@[who as u128].data@.len(),
        ensures
            World::update_identity_data_post(*old(self), *final(self), who, position, data_field, r),
            old(self).config.wf() && old(self).credibility_ok() ==> final(self).credibility_ok(),
    {
        match check_field(&data_field) {
            Err(e) => {
                return Err(e);
            },
            Ok(()) => {},
        }
        if !self.identities.contains_key(who as u128) {
            return Err(Error::IdentityNotFound);
        }
        let mut id = self.identities.remove(who as u128).unwrap();
        let field = IdentityField::from_identity_field_input(&data_field);
        let len: usize = id.data.len();
        proof {
            assert((position as int) < (len as int));
            assert(position as int == position as usize as int);
        }
        id.data.set(position as usize, field);
        self.identities.insert(who as u128, id);
        self.events.push(Event::IdentityUpdated { account_id: who });
        proof {
            assert(self.identities@.dom() =~= old(self).identities@.dom().insert(who as u128));
        }
        Ok(())
    }

    /// What `add_identity_data` does: appends the freshly submitted,
    /// unverified field.
    pub open spec fn add_identity_data_post(
        pre: World,
        post: World,
        who: u64,
        f: IdentityFieldInput,
        r: Result<(), Error>,
    ) -> bool {
        let wk = who as u128;
        let valid = field_valid(f.verify_method, f.value@);
        let found = pre.identities@.contains_key(wk);
        &&& r.is_ok() == (valid && found)
        &&& if r.is_ok() {
            let id = post.identities@[wk];
            let pre_id = pre.identities@[wk];
            &&& World::identities_frame(pre, post, wk)
            &&& id.data@.len() == pre_id.data@.len() + 1
            &&& forall|j: int|
                0 <= j < pre_id.data@.len() ==> #[trigger] id.data@[j] == pre_id.data@[j]
            &&& id.data@.last().name@ == f.name@
            &&& id.data@.last().value@ == f.value@
            &&& id.data@.last().verify_method == f.verify_method
            &&& !id.data@.last().is_verified
            &&& id.data@.last().verify_by.is_none()
            &&& id.name == pre_id.name
            &&& id.identity_type == pre_id.identity_type
            &&& id.credibility == pre_id.credibility
            &&& id.reviews == pre_id.reviews
            &&& post.events@ == pre.events@.push(Event::IdentityUpdated { account_id: who })
        } else {
            &&& World::unchanged(pre, post)
            &&& r == Result::<(), Error>::Err(
                if !valid {
                    field_error(f.verify_method)
                } else {
                    Error::IdentityNotFound
                },
            )
        }
    }

    /// Appends a data field to `who`'s identity.
    pub fn add_identity_data(&mut self, who: u64, data_field: IdentityFieldInput) -> (r: Result<
        (),
        Error,
    >)
        ensures
            World::add_identity_data_post(*old(self), *final(self), who, data_field, r),
            old(self).config.wf() && old(self).credibility_ok() ==> final(self).credibility_ok(),
    {
        match check_field(&data_field) {
            Err(e) => {
                return Err(e);
            },
            Ok(()) => {},
        }
        if !self.identities.contains_key(who as u128) {
            return Err(Error::IdentityNotFound);
        }
        let mut id = self.identities.remove(who as u128).unwrap();
        let field = IdentityField::from_identity_field_input(&data_field);
        id.data.push(field);
        self.identities.insert(who as u128, id);
        self.events.push(Event::IdentityUpdated { account_id: who });
        proof {
            assert(self.identities@.dom() =~= old(self).identities@.dom().insert(who as u128));
        }
        Ok(())
    }

    /// What `review_identity` does: each account may rate a subject once;
    /// the stored record holds only the content digest.
    pub open spec fn review_identity_post(
        pre: World,
        post: World,
        reviewer: u64,
        account: u64,
        content: Seq<u8>,
        r: Result<(), Error>,
    ) -> bool {
        let ak = account as u128;
        let found = pre.identities@.contains_key(ak);
        let already = found && exists|i: int|
            0 <= i < pre.identities@[ak].reviews@.len() && (#[trigger] pre.identities@[ak].reviews@[i]).reviewer
                == reviewer;
        let digest = digest_of(content) as u64;
        &&& r.is_ok() == (found && !already)
        &&& if r.is_ok() {
            let id = post.identities@[ak];
            let pre_id = pre.identities@[ak];
            &&& World::identities_frame(pre, post, ak)
            &&& id.reviews@ == pre_id.reviews@.push(
                crate::types::IdentityReview { reviewer, content_digest: digest },
            )
            &&& id.name == pre_id.name
            &&& id.identity_type == pre_id.identity_type
            &&& id.credibility == pre_id.credibility
            &&& id.data == pre_id.data
            &&& post.events@ == pre.events@.push(
                Event::IdentityReviewAdded { account, reviewer, content_digest: digest },
            )
        } else {
            &&& World::unchanged(pre, post)
            &&& r == Result::<(), Error>::Err(
                if !found {
                    Error::IdentityNotFound
                } else {
                    Error::CanOnlyReviewOnce
                },
            )
        }
    }

    /// Records one rating of `account`'s identity.
    pub fn review_identity(&mut self, reviewer: u64, account: u64, content: Vec<u8>) -> (r: Result<
        (),
        Error,
    >)
        ensures
            World::review_identity_post(*old(self), *final(self), reviewer, account, content@, r),
            old(self).config.wf() && old(self).credibility_ok() ==> final(self).credibility_ok(),
    {
        let already = match self.identities.get(account as u128) {
            None => {
                return Err(Error::IdentityNotFound);
            },
            Some(id) => {
                let mut i: usize = 0;
                let mut found = false;
                while i < id.reviews.len()
                    invariant
                        i <= id.reviews@.len(),
                        found == exists|j: int|
                            0 <= j < i && (#[trigger] id.reviews@[j]).reviewer == reviewer,
                    decreases id.reviews@.len() - i,
                {
                    if id.reviews[i].reviewer == reviewer {
                        found = true;
                    }
                    i = i + 1;
                }
                found
            },
        };
        if already {
            return Err(Error::CanOnlyReviewOnce);
        }
        let digest = digest_bytes(&content);
        let mut id = self.identities.remove(account as u128).unwrap();
        id.reviews.push(crate::types::IdentityReview { reviewer, content_digest: digest });
        self.identities.insert(account as u128, id);
        self.events.push(Event::IdentityReviewAdded { account, reviewer, content_digest: digest });
        proof {
            assert(self.identities@.dom() =~= old(self).identities@.dom().insert(account as u128));
        }
        Ok(())
    }

    /// What `create_evaluator` does: one evaluator per account, bonded with
    /// `EvaluatorBonding` native.
    pub open spec fn create_evaluator_post(
        pre: World,
        post: World,
        who: u64,
        name: Vec<u8>,
        about: Vec<u8>,
        rate: u128,
        r: Result<(), Error>,
    ) -> bool {
        let wk = who as u128;
        let existed = pre.evaluators@.contains_key(wk);
        let bond = pre.config.evaluator_bonding;
        &&& r.is_ok() == (!existed && World::can_reserve(pre, CurrencyId::Native, who, bond))
        &&& if r.is_ok() {
            &&& post.evaluators@.dom() == pre.evaluators@.dom().insert(wk)
            &&& forall|k: u128|
                k != wk && pre.evaluators@.contains_key(k) ==> #[trigger] post.evaluators@[k]
                    == pre.evaluators@[k]
            &&& post.evaluators@[wk].name == name
            &&& post.evaluators@[wk].about == about
            &&& post.evaluators@[wk].rate == rate
            &&& post.identities == pre.identities
            &&& post.verify_data_requests == pre.verify_data_requests
            &&& post.ledger.bal(CurrencyId::Native, who) == (AccountBalance {
                free: (pre.ledger.free_of(CurrencyId::Native, who) - bond) as u128,
                reserved: (pre.ledger.reserved_of(CurrencyId::Native, who) + bond) as u128,
            })
            &&& pre.ledger.same_except(post.ledger, CurrencyId::Native, who)
            &&& World::same_env(pre, post)
            &&& World::same_currencies(pre, post)
            &&& World::same_resolvers(pre, post)
            &&& World::same_payments(pre, post)
            &&& World::same_disputes(pre, post)
            &&& post.events@.len() == pre.events@.len() + 1
            &&& post.events@.subrange(0, pre.events@.len() as int) == pre.events@
            &&& (post.events@.last() matches Event::EvaluatorCreated {
                account: acc,
                name: n,
                about: ab,
                rate: rt,
            } && acc == who && n@ == name@ && ab@ == about@ && rt == rate)
        } else {
            &&& World::unchanged(pre, post)
            &&& r == Result::<(), Error>::Err(
                if existed {
                    Error::EvaluatorExisted
                } else {
                    World::reserve_error(pre, CurrencyId::Native, who, bond)
                },
            )
        }
    }

    /// Registers `who` as an evaluator, bonding native tokens.
    pub fn create_evaluator(
        &mut self,
        who: u64,
        name: Vec<u8>,
        about: Vec<u8>,
        rate: u128,
    ) -> (r: Result<(), Error>)
        ensures
            World::create_evaluator_post(*old(self), *final(self), who, name, about, rate, r),
            old(self).config.wf() && old(self).credibility_ok() ==> final(self).credibility_ok(),
    {
        if self.evaluators.contains_key(who as u128) {
            return Err(Error::EvaluatorExisted);
        }
        match self.ledger.reserve(CurrencyId::Native, who, self.config.evaluator_bonding) {
            Err(e) => {
                return Err(e);
            },
            Ok(()) => {},
        }
        let ev_name = copy_bytes(&name);
        let ev_about = copy_bytes(&about);
        self.evaluators.insert(who as u128, Evaluator { name, about, rate });
        self.events.push(
            Event::EvaluatorCreated { account: who, name: ev_name, about: ev_about, rate },
        );
        proof {
            assert(self.evaluators@.dom() =~= old(self).evaluators@.dom().insert(who as u128));
            assert(self.events@.subrange(0, old(self).events@.len() as int) =~= old(self).events@);
        }
        Ok(())
    }
}

/// Whether the transcript asks position `j` to be marked verified.
pub open spec fn transcript_hits(t: Seq<(u64, bool)>, j: int) -> bool {
    exists|i: int| 0 <= i < t.len() && (#[trigger] t[i]).0 as int == j && t[i].1
}

proof fn lemma_hits_push(t: Seq<(u64, bool)>, e: (u64, bool), j: int)
    ensures
        transcript_hits(t.push(e), j) == (transcript_hits(t, j) || (e.0 as int == j && e.1)),
{
    if transcript_hits(t.push(e), j) {
        let i = choose|i: int| 0 <= i < t.push(e).len() && (#[trigger] t.push(e)[i]).0 as int == j
            && t.push(e)[i].1;
        if i < t.len() {
            assert(t[i] == t.push(e)[i]);
        } else {
            assert(t.push(e)[i] == e);
        }
    }
    if transcript_hits(t, j) {
        let i = choose|i: int| 0 <= i < t.len() && (#[trigger] t[i]).0 as int == j && t[i].1;
        assert(t.push(e)[i] == t[i]);
    }
    if e.0 as int == j && e.1 {
        assert(t.push(e)[t.len() as int] == e);
    }
}

/// The shape of the identity's data after a verification transcript is
/// applied: hit positions become verified by the evaluator, the rest stay.
pub open spec fn data_after_verify(
    pre_data: Seq<IdentityField>,
    post_data: Seq<IdentityField>,
    t: Seq<(u64, bool)>,
    evaluator: u64,
) -> bool {
    &&& post_data.len() == pre_data.len()
    &&& forall|j: int|
        0 <= j < pre_data.len() ==> {
            if transcript_hits(t, j) {
                &&& (#[trigger] post_data[j]).name == pre_data[j].name
                &&& post_data[j].value == pre_data[j].value
                &&& post_data[j].verify_method == pre_data[j].verify_method
                &&& post_data[j].is_verified
                &&& post_data[j].verify_by == Some(evaluator)
            } else {
                post_data[j] == pre_data[j]
            }
        }
}

/// Compares a transcript's positions against a request's, in order.
fn eq_positions(transcript: &Vec<(u64, bool)>, positions: &Vec<u64>) -> (r: bool)
    ensures
        r == transcript_matches(transcript@, positions@),
{
    if transcript.len() != positions.len() {
        return false;
    }
    let mut i: usize = 0;
    while i < transcript.len()
        invariant
            i <= transcript@.len(),
            transcript@.len() == positions@.len(),
            forall|j: int| 0 <= j < i ==> (#[trigger] transcript@[j]).0 == positions@[j],
        decreases transcript.len() - i,
    {
        if transcript[i].0 != positions[i] {
            return false;
        }
        i = i + 1;
    }
    true
}

/// The requests of `s` not made by `account`, order kept.
pub open spec fn requests_without(s: Seq<VerifyRequest>, account: u64) -> Seq<VerifyRequest> {
    s.filter(|q: VerifyRequest| q.requestor != account)
}

/// Drops every request by `account`, keeping the order of the rest.
fn filter_requests(reqs: Vec<VerifyRequest>, account: u64) -> (out: Vec<VerifyRequest>)
    ensures
        out@ == requests_without(reqs@, account),
{
    let ghost orig = reqs@;
    let mut reqs = reqs;
    let mut out: Vec<VerifyRequest> = Vec::new();
    let ghost k: int = 0;
    proof {
        assert(orig.subrange(0, 0) =~= Seq::<VerifyRequest>::empty());
        assert(requests_without(Seq::<VerifyRequest>::empty(), account)
            =~= Seq::<VerifyRequest>::empty());
        assert(reqs@ =~= orig.subrange(0, orig.len() as int));
    }
    while reqs.len() > 0
        invariant
            0 <= k <= orig.len(),
            reqs@ == orig.subrange(k, orig.len() as int),
            out@ == requests_without(orig.subrange(0, k), account),
        decreases reqs.len(),
    {
        let q = reqs.remove(0);
        proof {
            assert(q == orig[k]);
            assert(reqs@ =~= orig.subrange(k + 1, orig.len() as int));
            assert(orig.subrange(0, k + 1).drop_last() =~= orig.subrange(0, k));
            assert(orig.subrange(0, k + 1).last() == orig[k]);
            reveal_with_fuel(Seq::filter, 2);
        }
        if q.requestor != account {
            out.push(q);
        }
        proof {
            k = k + 1;
        }
    }
    proof {
        assert(orig.subrange(0, orig.len() as int) =~= orig);
    }
    out
}

impl World {
    /// What `request_to_verify` does: pays the evaluator `rate` per position
    /// up front (no reservation) and queues the request.
    pub open spec fn request_to_verify_post(
        pre: World,
        post: World,
        requestor: u64,
        positions: Seq<u64>,
        evaluator: u64,
        r: Result<(), Error>,
    ) -> bool {
        let ek = evaluator as u128;
        let found = pre.evaluators@.contains_key(ek);
        let cost = pre.evaluators@[ek].rate * positions.len();
        let cost_ok = cost <= u128::MAX;
        let can_pay = pre.ledger.free_of(CurrencyId::Native, requestor) >= cost && (requestor
            != evaluator ==> pre.ledger.free_of(CurrencyId::Native, evaluator) + cost <= u128::MAX);
        let pre_list = if pre.verify_data_requests@.contains_key(ek) {
            pre.verify_data_requests@[ek]@
        } else {
            Seq::<VerifyRequest>::empty()
        };
        &&& r.is_ok() == (found && cost_ok && can_pay)
        &&& if r.is_ok() {
            &&& post.verify_data_requests@.dom() == pre.verify_data_requests@.dom().insert(ek)
            &&& forall|k: u128|
                k != ek && pre.verify_data_requests@.contains_key(k)
                    ==> #[trigger] post.verify_data_requests@[k] == pre.verify_data_requests@[k]
            &&& post.verify_data_requests@[ek]@.len() == pre_list.len() + 1
            &&& forall|i: int|
                0 <= i < pre_list.len() ==> #[trigger] post.verify_data_requests@[ek]@[i]
                    == pre_list[i]
            &&& post.verify_data_requests@[ek]@.last().requestor == requestor
            &&& post.verify_data_requests@[ek]@.last().positions@ == positions
            &&& post.identities == pre.identities
            &&& post.evaluators == pre.evaluators
            &&& (if requestor != evaluator {
                &&& post.ledger.bal(CurrencyId::Native, requestor) == (AccountBalance {
                    free: (pre.ledger.free_of(CurrencyId::Native, requestor) - cost) as u128,
                    reserved: pre.ledger.reserved_of(CurrencyId::Native, requestor),
                })
                &&& post.ledger.bal(CurrencyId::Native, evaluator) == (AccountBalance {
                    free: (pre.ledger.free_of(CurrencyId::Native, evaluator) + cost) as u128,
                    reserved: pre.ledger.reserved_of(CurrencyId::Native, evaluator),
                })
                &&& pre.ledger.same_except2(post.ledger, CurrencyId::Native, requestor, evaluator)
            } else {
                World::same_ledger(pre, post)
            })
            &&& World::same_env(pre, post)
            &&& World::same_currencies(pre, post)
            &&& World::same_resolvers(pre, post)
            &&& World::same_payments(pre, post)
            &&& World::same_disputes(pre, post)
            &&& post.events@.len() == pre.events@.len() + 1
            &&& post.events@.subrange(0, pre.events@.len() as int) == pre.events@
            &&& (post.events@.last() matches Event::VerifyDataRequestCreated {
                requestor: rq,
                positions: p,
                evaluator: ev,
            } && rq == requestor && p@ == positions && ev == evaluator)
        } else {
            &&& World::unchanged(pre, post)
            &&& r == Result::<(), Error>::Err(
                if !found {
                    Error::EvaluatorNotFound
                } else if !cost_ok {
                    Error::Overflow
                } else if pre.ledger.free_of(CurrencyId::Native, requestor) < cost {
                    Error::InsufficientBalance
                } else {
                    Error::Overflow
                },
            )
        }
    }

    /// Requests `evaluator` to verify the given data positions of
    /// `requestor`'s identity; the evaluator is paid immediately.
    pub fn request_to_verify(
        &mut self,
        requestor: u64,
        positions: Vec<u64>,
        evaluator: u64,
    ) -> (r: Result<(), Error>)
        ensures
            World::request_to_verify_post(
                *old(self),
                *final(self),
                requestor,
                positions@,
                evaluator,
                r,
            ),
            old(self).config.wf() && old(self).credibility_ok() ==> final(self).credibility_ok(),
    {
        let rate = match self.evaluators.get(evaluator as u128) {
            None => {
                return Err(Error::EvaluatorNotFound);
            },
            Some(ev) => ev.rate,
        };
        let cost = match rate.checked_mul(positions.len() as u128) {
            None => {
                return Err(Error::Overflow);
            },
            Some(c) => c,
        };
        match self.ledger.transfer(CurrencyId::Native, requestor, evaluator, cost) {
            Err(e) => {
                return Err(e);
            },
            Ok(()) => {},
        }
        let event_positions = copy_u64s(&positions);
        let mut list = match self.verify_data_requests.remove(evaluator as u128) {
            Some(l) => l,
            None => Vec::new(),
        };
        list.push(VerifyRequest { requestor, positions });
        self.verify_data_requests.insert(evaluator as u128, list);
        self.events.push(
            Event::VerifyDataRequestCreated { requestor, positions: event_positions, evaluator },
        );
        proof {
            assert(self.verify_data_requests@.dom() =~= old(
                self,
            ).verify_data_requests@.dom().insert(evaluator as u128));
            assert(self.events@.subrange(0, old(self).events@.len() as int) =~= old(self).events@);
        }
        Ok(())
    }

    /// What `verify_data` does: against the first pending request by
    /// `account`, an exactly matching transcript marks the approved
    /// positions verified by the evaluator and clears the request.
    pub open spec fn verify_data_post(
        pre: World,
        post: World,
        evaluator: u64,
        account: u64,
        transcript: Seq<(u64, bool)>,
        r: Result<(), Error>,
    ) -> bool {
        let ak = account as u128;
        let ek = evaluator as u128;
        let id_found = pre.identities@.contains_key(ak);
        let vdr_found = pre.verify_data_requests@.contains_key(ek);
        let reqs = if vdr_found {
            pre.verify_data_requests@[ek]@
        } else {
            Seq::<VerifyRequest>::empty()
        };
        let req_found = has_request(reqs, account);
        let ok_match = transcript_matches(
            transcript,
            reqs[first_request_index(reqs, account)].positions@,
        );
        &&& r.is_ok() == (id_found && vdr_found && req_found && ok_match)
        &&& if r.is_ok() {
            let id = post.identities@[ak];
            let pre_id = pre.identities@[ak];
            &&& post.identities@.dom() == pre.identities@.dom().insert(ak)
            &&& forall|k: u128|
                k != ak && pre.identities@.contains_key(k) ==> #[trigger] post.identities@[k]
                    == pre.identities@[k]
            &&& id.name == pre_id.name
            &&& id.identity_type == pre_id.identity_type
            &&& id.credibility == pre_id.credibility
            &&& id.reviews == pre_id.reviews
            &&& data_after_verify(pre_id.data@, id.data@, transcript, evaluator)
            &&& post.verify_data_requests@.dom() == pre.verify_data_requests@.dom().insert(ek)
            &&& forall|k: u128|
                k != ek && pre.verify_data_requests@.contains_key(k)
                    ==> #[trigger] post.verify_data_requests@[k] == pre.verify_data_requests@[k]
            &&& post.verify_data_requests@[ek]@ == requests_without(reqs, account)
            &&& post.evaluators == pre.evaluators
            &&& World::same_env(pre, post)
            &&& World::same_ledger(pre, post)
            &&& World::same_currencies(pre, post)
            &&& World::same_resolvers(pre, post)
            &&& World::same_payments(pre, post)
            &&& World::same_disputes(pre, post)
            &&& post.events@.len() == pre.events@.len() + 1
            &&& post.events@.subrange(0, pre.events@.len() as int) == pre.events@
            &&& (post.events@.last() matches Event::DataVerified {
                account: acc,
                positions: p,
                evaluator: ev,
            } && acc == account && ev == evaluator && p@.len() == transcript.len() && (forall|i: int|
                0 <= i < transcript.len() ==> p@[i] == (#[trigger] transcript[i]).0))
        } else {
            &&& World::unchanged(pre, post)
            &&& r == Result::<(), Error>::Err(
                if !id_found {
                    Error::IdentityNotFound
                } else if !vdr_found || !req_found {
                    Error::VerifyRequestNotFound
                } else {
                    Error::InvalidTranscript
                },
            )
        }
    }

    /// Applies `evaluator`'s verification transcript to `account`'s
    /// identity.
    pub fn verify_data(
        &mut self,
        evaluator: u64,
        account: u64,
        transcript: Vec<(u64, bool)>,
    ) -> (r: Result<(), Error>)
        requires
            ({
                let ak = account as u128;
                let ek = evaluator as u128;
                let reqs = if old(self).verify_data_requests@.contains_key(ek) {
                    old(self).verify_data_requests@[ek]@
                } else {
                    Seq::<VerifyRequest>::empty()
                };
                (old(self).identities@.contains_key(ak) && has_request(reqs, account)
                    && transcript_matches(
                    transcript@,
                    reqs[first_request_index(reqs, account)].positions@,
                )) ==> forall|i: int|
                    0 <= i < transcript@.len() && (#[trigger] transcript@[i]).1 ==> (
                    transcript@[i].0 as int) < old(self).identities@[ak].data@.len()
            }),
        ensures
            World::verify_data_post(*old(self), *final(self), evaluator, account, transcript@, r),
            old(self).config.wf() && old(self).credibility_ok() ==> final(self).credibility_ok(),
    {
        if !self.identities.contains_key(account as u128) {
            return Err(Error::IdentityNotFound);
        }
        let ok_match = match self.verify_data_requests.get(evaluator as u128) {
            None => {
                return Err(Error::VerifyRequestNotFound);
            },
            Some(reqs) => {
                let mut i: usize = 0;
                let mut found = false;
                while i < reqs.len()
                    invariant_except_break
                        i <= reqs@.len(),
                        !found,
                        forall|j: int| 0 <= j < i ==> (#[trigger] reqs@[j]).requestor != account,
                    ensures
                        found ==> i < reqs@.len() && reqs@[i as int].requestor == account
                            && forall|j: int|
                            0 <= j < i ==> (#[trigger] reqs@[j]).requestor != account,
                        !found ==> forall|j: int|
                            0 <= j < reqs@.len() ==> (#[trigger] reqs@[j]).requestor != account,
                    decreases reqs@.len() - i,
                {
                    if reqs[i].requestor == account {
                        found = true;
                        break;
                    }
                    i = i + 1;
                }
                if !found {
                    return Err(Error::VerifyRequestNotFound);
                }
                proof {
                    lemma_first_request_index(reqs@, account);
                    assert(i as int == first_request_index(reqs@, account));
                }
                eq_positions(&transcript, &reqs[i].positions)
            },
        };
        if !ok_match {
            return Err(Error::InvalidTranscript);
        }
        let ghost pre_id = old(self).identities@[account as u128];
        let ghost pre_data = old(self).identities@[account as u128].data@;
        let mut id = self.identities.remove(account as u128).unwrap();
        let len: usize = id.data.len();
        let mut t: usize = 0;
        proof {
            assert(transcript@.subrange(0, 0) =~= Seq::<(u64, bool)>::empty());
        }
        while t < transcript.len()
            invariant
                t <= transcript@.len(),
                id.data@.len() == pre_data.len(),
                len == pre_data.len(),
                id.name == pre_id.name,
                id.identity_type == pre_id.identity_type,
                id.credibility == pre_id.credibility,
                id.reviews == pre_id.reviews,
                data_after_verify(pre_data, id.data@, transcript@.subrange(0, t as int), evaluator),
                forall|i: int|
                    0 <= i < transcript@.len() && (#[trigger] transcript@[i]).1 ==> (
                    transcript@[i].0 as int) < pre_data.len(),
            decreases transcript.len() - t,
        {
            let (pos, valid) = transcript[t];
            proof {
                assert(transcript@.subrange(0, t + 1) =~= transcript@.subrange(0, t as int).push(
                    transcript@[t as int],
                ));
                assert forall|j: int| #[trigger]
                    transcript_hits(transcript@.subrange(0, t + 1), j) == (transcript_hits(
                        transcript@.subrange(0, t as int),
                        j,
                    ) || (transcript@[t as int].0 as int == j && transcript@[t as int].1)) by {
                    lemma_hits_push(
                        transcript@.subrange(0, t as int),
                        transcript@[t as int],
                        j,
                    );
                }
            }
            if valid {
                proof {
                    assert((pos as int) < (len as int));
                    assert(pos as int == pos as usize as int);
                }
                let mut slot = IdentityField {
                    name: Vec::new(),
                    value: Vec::new(),
                    verify_method: VerifyMethod::NoVerify,
                    is_verified: false,
                    verify_by: None,
                };
                id.data.set_and_swap(pos as usize, &mut slot);
                slot.is_verified = true;
                slot.verify_by = Some(evaluator);
                id.data.set_and_swap(pos as usize, &mut slot);
            }
            t = t + 1;
        }
        proof {
            assert(transcript@.subrange(0, transcript@.len() as int) =~= transcript@);
        }
        self.identities.insert(account as u128, id);
        let reqs_owned = self.verify_data_requests.remove(evaluator as u128).unwrap();
        let filtered = filter_requests(reqs_owned, account);
        self.verify_data_requests.insert(evaluator as u128, filtered);
        let mut event_positions: Vec<u64> = Vec::new();
        let mut t2: usize = 0;
        while t2 < transcript.len()
            invariant
                t2 <= transcript@.len(),
                event_positions@.len() == t2,
                forall|i: int|
                    0 <= i < t2 ==> event_positions@[i] == (#[trigger] transcript@[i]).0,
            decreases transcript.len() - t2,
        {
            event_positions.push(transcript[t2].0);
            t2 = t2 + 1;
        }
        self.events.push(Event::DataVerified { account, positions: event_positions, evaluator });
        proof {
            assert(self.identities@.dom() =~= old(self).identities@.dom().insert(account as u128));
            assert(self.verify_data_requests@.dom() =~= old(
                self,
            ).verify_data_requests@.dom().insert(evaluator as u128));
            assert(self.events@.subrange(0, old(self).events@.len() as int) =~= old(self).events@);
        }
        Ok(())
    }

    /// Whether `who` has an identity record.
    pub fn has_identity(&self, who: u64) -> (r: bool)
        ensures
            r == self.identities@.contains_key(who as u128),
    {
        self.identities.contains_key(who as u128)
    }

    /// The credibility of `who`'s identity.
    pub fn get_credibility(&self, who: u64) -> (r: Result<u32, Error>)
        ensures
            match r {
                Ok(c) => self.identities@.contains_key(who as u128) && c
                    == self.identities@[who as u128].credibility,
                Err(e) => !self.identities@.contains_key(who as u128) && e
                    == Error::IdentityNotFound,
            },
    {
        match self.identities.get(who as u128) {
            None => Err(Error::IdentityNotFound),
            Some(id) => Ok(id.credibility),
        }
    }

    /// What a credibility adjustment does: everything but the score stays.
    pub open spec fn credibility_changed_post(
        pre: World,
        post: World,
        who: u64,
        new_credibility: u32,
        r: Result<(), Error>,
    ) -> bool {
        let wk = who as u128;
        let found = pre.identities@.contains_key(wk);
        &&& r.is_ok() == found
        &&& if r.is_ok() {
            let id = post.identities@[wk];
            let pre_id = pre.identities@[wk];
            &&& World::identities_frame(pre, post, wk)
            &&& id.credibility == new_credibility
            &&& id.name == pre_id.name
            &&& id.identity_type == pre_id.identity_type
            &&& id.data == pre_id.data
            &&& id.reviews == pre_id.reviews
            &&& post.events == pre.events
        } else {
            &&& World::unchanged(pre, post)
            &&& r == Result::<(), Error>::Err(Error::IdentityNotFound)
        }
    }

    /// The score after an increase: saturates at `MaxCredibility`.
    pub open spec fn increased_credibility(pre: World, who: u64, amount: u32) -> u32 {
        let c = pre.identities@[who as u128].credibility;
        if c + amount >= pre.config.max_credibility {
            pre.config.max_credibility
        } else {
            (c + amount) as u32
        }
    }

    /// The score after a decrease: clamps at zero.
    pub open spec fn decreased_credibility(pre: World, who: u64, amount: u32) -> u32 {
        let c = pre.identities@[who as u128].credibility;
        if amount >= c {
            0
        } else {
            (c - amount) as u32
        }
    }

    /// Raises `who`'s credibility by `amount`, saturating at
    /// `MaxCredibility`.
    pub fn increase_credibility(&mut self, who: u64, amount: u32) -> (r: Result<(), Error>)
        ensures
            World::credibility_changed_post(
                *old(self),
                *final(self),
                who,
                World::increased_credibility(*old(self), who, amount),
                r,
            ),
            old(self).config.wf() && old(self).credibility_ok() ==> final(self).credibility_ok(),
    {
        if !self.identities.contains_key(who as u128) {
            return Err(Error::IdentityNotFound);
        }
        let mut id = self.identities.remove(who as u128).unwrap();
        let maxc = self.config.max_credibility;
        id.credibility = if (id.credibility as u64) + (amount as u64) >= (maxc as u64) {
            maxc
        } else {
            id.credibility + amount
        };
        self.identities.insert(who as u128, id);
        proof {
            assert(self.identities@.dom() =~= old(self).identities@.dom().insert(who as u128));
        }
        Ok(())
    }

    /// Lowers `who`'s credibility by `amount`, clamping at zero.
    pub fn decrease_credibility(&mut self, who: u64, amount: u32) -> (r: Result<(), Error>)
        ensures
            World::credibility_changed_post(
                *old(self),
                *final(self),
                who,
                World::decreased_credibility(*old(self), who, amount),
                r,
            ),
            old(self).config.wf() && old(self).credibility_ok() ==> final(self).credibility_ok(),
    {
        if !self.identities.contains_key(who as u128) {
            return Err(Error::IdentityNotFound);
        }
        let mut id = self.identities.remove(who as u128).unwrap();
        id.credibility = if amount >= id.credibility {
            0
        } else {
            id.credibility - amount
        };
        self.identities.insert(who as u128, id);
        proof {
            assert(self.identities@.dom() =~= old(self).identities@.dom().insert(who as u128));
        }
        Ok(())
    }
}

} // verus!
