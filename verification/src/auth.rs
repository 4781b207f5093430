//! Route policies: which methods a route answers to, whether the actor must
//! be authenticated, and the rights the actor must have.

use crate::evaluation::{settled_by, HasPermission, Progress, Step};
use crate::rights::{Formula, Rights};
use crate::session::SQLxSessionAuth;
use rocket::http::Method;
use std::marker::PhantomData;
use vstd::prelude::*;

verus! {

/// rocket's HTTP method, carried as an opaque value.
#[verifier::external_type_specification]
#[verifier::external_body]
pub struct ExMethod(Method);

/// Compares two methods with rocket's own `==` on `Method`, which the
/// crate derives for an enum without fields: the result is true exactly
/// when both are the same method.
#[verifier::external_body]
fn same_method(a: &Method, b: &Method) -> (same: bool)
    ensures
        same == (*a == *b),
{
    a == b
}

/// The policy of one protected route.
pub struct Auth<D> {
    /// What the actor must have. Nothing is granted until this is set.
    pub rights: Rights,
    /// Whether the actor must be authenticated.
    pub auth_required: bool,
    /// The methods the route answers to.
    pub methods: Vec<Method>,
    /// The actor type the policy is for.
    pub phantom: PhantomData<D>,
}

impl<D> Auth<D> {
    /// The refusal that asks nothing.
    pub open spec fn refused() -> Progress {
        Progress { decided: Some(false), asked: Seq::empty() }
    }

    /// The evaluation of the policy for a request with `method` by an actor
    /// who reports `authenticated`, on the answers received so far. An
    /// unauthenticated actor where authentication is required, and a method
    /// the route does not answer to, are refused before anything is asked.
    pub open spec fn verdict(
        self,
        authenticated: bool,
        method: Method,
        answers: Seq<bool>,
    ) -> Progress {
        if self.auth_required && !authenticated {
            Self::refused()
        } else if !self.methods@.contains(method) {
            Self::refused()
        } else {
            self.rights@.run(answers)
        }
    }

    /// A policy for `methods` that grants nothing yet.
    pub fn build(methods: &[Method], auth_req: bool) -> (auth: Auth<D>)
        ensures
            auth.rights@ == Formula::Never,
            auth.auth_required == auth_req,
            auth.methods@ == methods@,
            forall|authenticated: bool, method: Method, answers: Seq<bool>|
                #[trigger] auth.verdict(authenticated, method, answers) == Self::refused(),
    {
        let mut allowed: Vec<Method> = Vec::new();
        let mut i: usize = 0;
        while i < methods.len()
            invariant
                i <= methods.len(),
                allowed@ == methods@.take(i as int),
            decreases methods.len() - i,
        {
            allowed.push(methods[i]);
            assert(methods@.take(i + 1) =~= methods@.take(i as int).push(methods@[i as int]));
            i += 1;
        }
        assert(methods@.take(i as int) =~= methods@);
        Auth { rights: Rights::Never, auth_required: auth_req, methods: allowed, phantom: PhantomData }
    }

    /// Sets what the actor must have, and hands the policy back for
    /// further building: what is done through the reference returned is
    /// done to the policy.
    pub fn require(&mut self, rights: Rights) -> (this: &mut Self)
        ensures
            this.rights == rights,
            this.auth_required == old(self).auth_required,
            this.methods == old(self).methods,
            *final(self) == *final(this),
    {
        self.rights = rights;
        self
    }

    /// Whether the route answers to `method`.
    fn allows(&self, method: &Method) -> (allowed: bool)
        ensures
            allowed == self.methods@.contains(*method),
    {
        let mut i: usize = 0;
        while i < self.methods.len()
            invariant
                i <= self.methods.len(),
                forall|j: int| 0 <= j < i ==> self.methods@[j] != *method,
            decreases self.methods.len() - i,
        {
            if same_method(&self.methods[i], method) {
                return true;
            }
            i += 1;
        }
        false
    }

    /// The next step in deciding a request with `method` by an actor who
    /// reports `authenticated`, given the answers received so far to the
    /// questions asked so far.
    pub fn step<'a>(&'a self, authenticated: bool, method: &Method, answers: &[bool]) -> (next:
        Step<'a>)
        ensures
            next.reports(self.verdict(authenticated, *method, answers@)),
    {
        if self.auth_required && !authenticated {
            return Step::Done(false);
        }
        if self.allows(method) {
            self.rights.step(answers)
        } else {
            Step::Done(false)
        }
    }

    /// The policy refuses, and asks nothing, in three cases whatever else
    /// holds: an unauthenticated actor where authentication is required, a
    /// method the route does not answer to, and rights that were never set.
    pub proof fn lemma_refusals(self, authenticated: bool, method: Method, answers: Seq<bool>)
        ensures
            self.auth_required && !authenticated ==> self.verdict(authenticated, method, answers)
                == Self::refused(),
            !self.methods@.contains(method) ==> self.verdict(authenticated, method, answers)
                == Self::refused(),
            self.rights@ == Formula::Never ==> self.verdict(authenticated, method, answers)
                == Self::refused(),
    {
    }
}

impl<D> Auth<D> where D: SQLxSessionAuth + HasPermission {
    /// Decides a request with `method` by `user`: refused if authentication
    /// is required and `user` is not authenticated, refused if the route
    /// does not answer to `method`, and else what the rights come to
    /// against `user`.
    pub fn validate(&self, user: &D, method: &Method) -> (granted: bool)
        ensures
            exists|authenticated: bool, answers: Seq<bool>|
                {
                    &&& self.auth_required ==> call_ensures(
                        D::is_authenticated,
                        (user,),
                        authenticated,
                    )
                    &&& settled_by(
                        user,
                        #[trigger] self.verdict(authenticated, *method, answers),
                        answers,
                        granted,
                    )
                },
            !self.methods@.contains(*method) ==> !granted,
            self.rights@ == Formula::Never ==> !granted,
            self.auth_required && (forall|flag: bool|
                call_ensures(D::is_authenticated, (user,), flag) ==> !flag) ==> !granted,
    {
        if self.auth_required && !user.is_authenticated() {
            assert(settled_by(user, self.verdict(false, *method, Seq::empty()), Seq::empty(), false));
            return false;
        }
        if self.allows(method) {
            let granted = self.rights.evaluate(user);
            proof {
                let answers = choose|answers: Seq<bool>|
                    settled_by(user, #[trigger] self.rights@.run(answers), answers, granted);
                assert(settled_by(user, self.verdict(true, *method, answers), answers, granted));
            }
            granted
        } else {
            assert(settled_by(user, self.verdict(true, *method, Seq::empty()), Seq::empty(), false));
            false
        }
    }
}

} // verus!
