//! Evaluation of permission expressions: in order, one capability check at
//! a time, stopping at the first child that decides its parent.

use crate::rights::{Formula, Rights};
use vstd::prelude::*;

verus! {

/// Answers whether an actor holds a permission.
pub trait HasPermission {
    /// Whether the actor holds the permission named `perm`.
    fn has(&self, perm: &String) -> bool;
}

/// Whether `answer` is something `user` may say when asked for the
/// permission named `name`.
pub open spec fn may_answer<U: HasPermission>(user: &U, name: Seq<char>, answer: bool) -> bool {
    exists|perm: String| perm@ == name && #[trigger] call_ensures(U::has, (user, &perm), answer)
}

/// Whether `progress` is a decision for `granted` in which each name asked
/// was answered by `user` with the answer of the same position.
pub open spec fn settled_by<U: HasPermission>(
    user: &U,
    progress: Progress,
    answers: Seq<bool>,
    granted: bool,
) -> bool {
    &&& progress.decided == Some(granted)
    &&& progress.asked.len() == answers.len()
    &&& forall|i: int|
        0 <= i < answers.len() ==> may_answer(user, #[trigger] progress.asked[i], answers[i])
}

/// How far an evaluation has come on the answers it was given.
pub struct Progress {
    /// The decision, once the answers suffice.
    pub decided: Option<bool>,
    /// The permission names asked for, in order. While no decision is
    /// reached the last one is the open question.
    pub asked: Seq<Seq<char>>,
}

impl Progress {
    /// The same checks with the opposite decision.
    pub open spec fn negated(self) -> Progress {
        Progress {
            decided: match self.decided {
                Some(granted) => Some(!granted),
                None => None,
            },
            asked: self.asked,
        }
    }

    /// This progress, made after `earlier` had been asked.
    pub open spec fn after(self, earlier: Seq<Seq<char>>) -> Progress {
        Progress { decided: self.decided, asked: earlier + self.asked }
    }
}

impl Formula {
    /// Whether the expression holds for an actor who holds exactly the
    /// permissions in `held`.
    pub open spec fn grants(self, held: Set<Seq<char>>) -> bool
        decreases self,
    {
        match self {
            Formula::All(children) => forall|i: int|
                0 <= i < children.len() ==> (#[trigger] children[i]).grants(held),
            Formula::Any(children) => exists|i: int|
                0 <= i < children.len() && (#[trigger] children[i]).grants(held),
            Formula::NoneOf(children) => !(forall|i: int|
                0 <= i < children.len() ==> (#[trigger] children[i]).grants(held)),
            Formula::Permission(name) => held.contains(name),
            Formula::Never => false,
        }
    }

    /// The evaluation of the expression on the answers received so far.
    /// Each permission met takes the next answer; where the answers run
    /// out, the permission met is the open question.
    pub open spec fn run(self, answers: Seq<bool>) -> Progress
        decreases self, 0nat,
    {
        match self {
            Formula::All(children) => Formula::run_until(children, 0, false, answers),
            Formula::Any(children) => Formula::run_until(children, 0, true, answers),
            Formula::NoneOf(children) => Formula::run_until(children, 0, false, answers).negated(),
            Formula::Permission(name) => Progress {
                decided: if answers.len() > 0 {
                    Some(answers[0])
                } else {
                    None
                },
                asked: seq![name],
            },
            Formula::Never => Progress { decided: Some(false), asked: seq![] },
        }
    }

    /// The evaluation of `children` from index `from` on, in order, until
    /// one of them comes out as `stop`: the decision is then `stop`, and
    /// `!stop` if none does.
    pub open spec fn run_until(
        children: Seq<Formula>,
        from: int,
        stop: bool,
        answers: Seq<bool>,
    ) -> Progress
        decreases children, children.len() - from,
    {
        if from < 0 || from >= children.len() {
            Progress { decided: Some(!stop), asked: seq![] }
        } else {
            let first = children[from].run(answers);
            if first.decided == Some(!stop) {
                Formula::run_until(
                    children,
                    from + 1,
                    stop,
                    answers.skip(first.asked.len() as int),
                ).after(first.asked)
            } else {
                first
            }
        }
    }

    /// A decision has used one answer for each name asked; an open
    /// question has used all the answers there are.
    pub proof fn lemma_run_counts(self, answers: Seq<bool>)
        ensures
            self.run(answers).decided is Some ==> self.run(answers).asked.len() <= answers.len(),
            self.run(answers).decided is None ==> self.run(answers).asked.len() == answers.len()
                + 1,
        decreases self, 0nat,
    {
        match self {
            Formula::All(children) => Formula::lemma_run_until_counts(children, 0, false, answers),
            Formula::Any(children) => Formula::lemma_run_until_counts(children, 0, true, answers),
            Formula::NoneOf(children) => Formula::lemma_run_until_counts(
                children,
                0,
                false,
                answers,
            ),
            Formula::Permission(name) => {},
            Formula::Never => {},
        }
    }

    /// [`Formula::lemma_run_counts`] for a run of children.
    pub proof fn lemma_run_until_counts(
        children: Seq<Formula>,
        from: int,
        stop: bool,
        answers: Seq<bool>,
    )
        ensures
            Formula::run_until(children, from, stop, answers).decided is Some
                ==> Formula::run_until(children, from, stop, answers).asked.len() <= answers.len(),
            Formula::run_until(children, from, stop, answers).decided is None
                ==> Formula::run_until(children, from, stop, answers).asked.len() == answers.len()
                + 1,
        decreases children, children.len() - from,
    {
        if 0 <= from < children.len() {
            let first = children[from].run(answers);
            children[from].lemma_run_counts(answers);
            if first.decided == Some(!stop) {
                Formula::lemma_run_until_counts(
                    children,
                    from + 1,
                    stop,
                    answers.skip(first.asked.len() as int),
                );
            }
        }
    }
    /// Once the answers suffice for a decision, further answers change
    /// nothing: neither the decision nor the names asked.
    pub proof fn lemma_decided_stays(self, answers: Seq<bool>, more: Seq<bool>)
        requires
            self.run(answers).decided is Some,
        ensures
            self.run(answers + more) == self.run(answers),
        decreases self, 0nat,
    {
        match self {
            Formula::All(children) => Formula::lemma_run_until_decided_stays(
                children,
                0,
                false,
                answers,
                more,
            ),
            Formula::Any(children) => Formula::lemma_run_until_decided_stays(
                children,
                0,
                true,
                answers,
                more,
            ),
            Formula::NoneOf(children) => Formula::lemma_run_until_decided_stays(
                children,
                0,
                false,
                answers,
                more,
            ),
            Formula::Permission(name) => {
                assert((answers + more)[0] == answers[0]);
            },
            Formula::Never => {},
        }
    }

    /// [`Formula::lemma_decided_stays`] for a run of children.
    pub proof fn lemma_run_until_decided_stays(
        children: Seq<Formula>,
        from: int,
        stop: bool,
        answers: Seq<bool>,
        more: Seq<bool>,
    )
        requires
            Formula::run_until(children, from, stop, answers).decided is Some,
        ensures
            Formula::run_until(children, from, stop, answers + more) == Formula::run_until(
                children,
                from,
                stop,
                answers,
            ),
        decreases children, children.len() - from,
    {
        if 0 <= from < children.len() {
            let first = children[from].run(answers);
            children[from].lemma_decided_stays(answers, more);
            if first.decided == Some(!stop) {
                children[from].lemma_run_counts(answers);
                let used = first.asked.len() as int;
                assert((answers + more).skip(used) =~= answers.skip(used) + more);
                Formula::lemma_run_until_decided_stays(
                    children,
                    from + 1,
                    stop,
                    answers.skip(used),
                    more,
                );
            }
        }
    }

    /// A run of children that one of them has decided is not changed by
    /// what stands after them: the decision is the same and no further
    /// name is asked.
    pub proof fn lemma_run_until_cut(
        children: Seq<Formula>,
        rest: Seq<Formula>,
        from: int,
        stop: bool,
        answers: Seq<bool>,
    )
        requires
            0 <= from,
            Formula::run_until(children, from, stop, answers).decided == Some(stop),
        ensures
            Formula::run_until(children + rest, from, stop, answers) == Formula::run_until(
                children,
                from,
                stop,
                answers,
            ),
        decreases children.len() - from,
    {
        if from < children.len() {
            let first = children[from].run(answers);
            assert((children + rest)[from] == children[from]);
            if first.decided == Some(!stop) {
                Formula::lemma_run_until_cut(
                    children,
                    rest,
                    from + 1,
                    stop,
                    answers.skip(first.asked.len() as int),
                );
            }
        }
    }

    /// Short-circuit: once a child has decided its parent, the children
    /// after it are not consulted. An expression that is decided by one of
    /// `children` comes to the same decision, having asked the same names,
    /// whatever `rest` is appended.
    pub proof fn lemma_short_circuit(
        children: Seq<Formula>,
        rest: Seq<Formula>,
        answers: Seq<bool>,
    )
        ensures
            Formula::All(children).run(answers).decided == Some(false) ==> Formula::All(
                children + rest,
            ).run(answers) == Formula::All(children).run(answers),
            Formula::Any(children).run(answers).decided == Some(true) ==> Formula::Any(
                children + rest,
            ).run(answers) == Formula::Any(children).run(answers),
            Formula::NoneOf(children).run(answers).decided == Some(true) ==> Formula::NoneOf(
                children + rest,
            ).run(answers) == Formula::NoneOf(children).run(answers),
    {
        if Formula::run_until(children, 0, false, answers).decided == Some(false) {
            Formula::lemma_run_until_cut(children, rest, 0, false, answers);
        }
        if Formula::run_until(children, 0, true, answers).decided == Some(true) {
            Formula::lemma_run_until_cut(children, rest, 0, true, answers);
        }
    }

    /// The empty conjunction holds and the empty disjunction does not,
    /// whatever the actor holds, and neither asks anything.
    pub proof fn lemma_empty(held: Set<Seq<char>>, answers: Seq<bool>)
        ensures
            Formula::All(Seq::empty()).grants(held),
            !Formula::Any(Seq::empty()).grants(held),
            Formula::All(Seq::empty()).run(answers) == (Progress {
                decided: Some(true),
                asked: Seq::empty(),
            }),
            Formula::Any(Seq::empty()).run(answers) == (Progress {
                decided: Some(false),
                asked: Seq::empty(),
            }),
    {
    }

    /// `NoneOf` is the negation of `All` over the same children, not of
    /// `Any`: it asks what `All` asks and decides the opposite.
    pub proof fn lemma_none_of_negates_all(
        children: Seq<Formula>,
        held: Set<Seq<char>>,
        answers: Seq<bool>,
    )
        ensures
            Formula::NoneOf(children).grants(held) == !Formula::All(children).grants(held),
            Formula::NoneOf(children).run(answers) == Formula::All(children).run(answers).negated(),
    {
    }

    /// A single permission is decided by the actor's answer for its name
    /// and by nothing else.
    pub proof fn lemma_permission(name: Seq<char>, held: Set<Seq<char>>, answers: Seq<bool>)
        ensures
            Formula::Permission(name).grants(held) == held.contains(name),
            Formula::Permission(name).run(answers).asked == seq![name],
            Formula::Permission(name).run(answers).decided == (if answers.len() > 0 {
                Some(answers[0])
            } else {
                None
            }),
    {
    }

    /// Evaluation computes the boolean value of the expression: where each
    /// answer used is whether `held` contains the name asked, the decision
    /// is [`Formula::grants`].
    pub proof fn lemma_run_decides_grants(self, held: Set<Seq<char>>, answers: Seq<bool>)
        requires
            self.run(answers).decided is Some,
            forall|i: int|
                0 <= i < self.run(answers).asked.len() ==> answers[i] == held.contains(
                    #[trigger] self.run(answers).asked[i],
                ),
        ensures
            self.run(answers).decided == Some(self.grants(held)),
        decreases self, 0nat,
    {
        match self {
            Formula::All(children) => {
                Formula::lemma_run_until_decides(children, 0, false, held, answers);
            },
            Formula::Any(children) => {
                Formula::lemma_run_until_decides(children, 0, true, held, answers);
            },
            Formula::NoneOf(children) => {
                let inner = Formula::run_until(children, 0, false, answers);
                assert forall|i: int| 0 <= i < inner.asked.len() implies answers[i]
                    == held.contains(#[trigger] inner.asked[i]) by {
                    assert(self.run(answers).asked[i] == inner.asked[i]);
                }
                Formula::lemma_run_until_decides(children, 0, false, held, answers);
            },
            Formula::Permission(name) => {
                assert(self.run(answers).asked[0] == name);
            },
            Formula::Never => {},
        }
    }

    /// [`Formula::lemma_run_decides_grants`] for a run of children: the
    /// decision is `stop` exactly if one of them has the value `stop`.
    pub proof fn lemma_run_until_decides(
        children: Seq<Formula>,
        from: int,
        stop: bool,
        held: Set<Seq<char>>,
        answers: Seq<bool>,
    )
        requires
            0 <= from,
            Formula::run_until(children, from, stop, answers).decided is Some,
            forall|i: int|
                0 <= i < Formula::run_until(children, from, stop, answers).asked.len()
                    ==> answers[i] == held.contains(
                    #[trigger] Formula::run_until(children, from, stop, answers).asked[i],
                ),
        ensures
            Formula::run_until(children, from, stop, answers).decided == Some(stop) <==> exists|
                j: int,
            |
                from <= j < children.len() && (#[trigger] children[j]).grants(held) == stop,
        decreases children, children.len() - from,
    {
        let whole = Formula::run_until(children, from, stop, answers);
        if from < children.len() {
            let first = children[from].run(answers);
            children[from].lemma_run_counts(answers);
            assert forall|i: int| 0 <= i < first.asked.len() implies answers[i] == held.contains(
                #[trigger] first.asked[i],
            ) by {
                assert(whole.asked[i] == first.asked[i]);
            }
            children[from].lemma_run_decides_grants(held, answers);
            if first.decided == Some(!stop) {
                let used = first.asked.len() as int;
                let rest = Formula::run_until(children, from + 1, stop, answers.skip(used));
                assert forall|i: int| 0 <= i < rest.asked.len() implies answers.skip(used)[i]
                    == held.contains(#[trigger] rest.asked[i]) by {
                    Formula::lemma_run_until_counts(children, from + 1, stop, answers.skip(used));
                    assert(whole.asked[used + i] == rest.asked[i]);
                }
                Formula::lemma_run_until_decides(children, from + 1, stop, held, answers.skip(used));
                assert(children[from].grants(held) == !stop);
            } else {
                assert(children[from].grants(held) == stop);
            }
        }
    }

}

/// What an evaluation needs next, or what it has come to.
pub enum Step<'a> {
    /// The actor must be asked whether it holds this permission.
    Ask(&'a str),
    /// The expression is decided.
    Done(bool),
}

impl<'a> Step<'a> {
    /// Whether this step is what `progress` calls for.
    pub open spec fn reports(self, progress: Progress) -> bool {
        match self {
            Step::Ask(name) => progress.decided is None && progress.asked.len() > 0
                && progress.asked.last() == name@,
            Step::Done(granted) => progress.decided == Some(granted),
        }
    }
}

/// The result of walking one subtree along the answers from some position.
enum Walk<'a> {
    /// The subtree came out with this value; the answers from the second
    /// field on are unused.
    Value(bool, usize),
    /// The answers ran out at this permission.
    Ask(&'a str),
}

impl<'a> Walk<'a> {
    /// Whether this walk, begun at position `at`, is what `progress` on the
    /// answers from `at` on calls for.
    spec fn follows(self, progress: Progress, at: int, len: int) -> bool {
        match self {
            Walk::Value(value, next) => progress.decided == Some(value) && next == at
                + progress.asked.len() && next <= len,
            Walk::Ask(name) => progress.decided is None && progress.asked.len() > 0
                && progress.asked.last() == name@,
        }
    }
}

impl Rights {
    /// Walks this subtree along `answers` from position `at`.
    fn walk<'a>(&'a self, answers: &[bool], at: usize) -> (walk: Walk<'a>)
        requires
            at <= answers.len(),
        ensures
            walk.follows(self@.run(answers@.skip(at as int)), at as int, answers.len() as int),
        decreases self,
    {
        match self {
            Rights::All(children) => Rights::walk_until(children, false, answers, at),
            Rights::Any(children) => Rights::walk_until(children, true, answers, at),
            Rights::NoneOf(children) => match Rights::walk_until(children, false, answers, at) {
                Walk::Value(value, next) => Walk::Value(!value, next),
                Walk::Ask(name) => Walk::Ask(name),
            },
            Rights::Permission(name) => {
                if at < answers.len() {
                    Walk::Value(answers[at], at + 1)
                } else {
                    Walk::Ask(name.as_str())
                }
            },
            Rights::Never => Walk::Value(false, at),
        }
    }

    /// Walks `children` in order along `answers` from position `at`, until
    /// one of them comes out as `stop`.
    fn walk_until<'a>(children: &'a Vec<Rights>, stop: bool, answers: &[bool], at: usize) -> (walk:
        Walk<'a>)
        requires
            at <= answers.len(),
        ensures
            walk.follows(
                Formula::run_until(Rights::views(children@), 0, stop, answers@.skip(at as int)),
                at as int,
                answers.len() as int,
            ),
        decreases children,
    {
        let ghost kids = Rights::views(children@);
        let ghost whole = Formula::run_until(kids, 0, stop, answers@.skip(at as int));
        let ghost mut seen: Seq<Seq<char>> = Seq::empty();
        let mut i: usize = 0;
        let mut pos: usize = at;
        assert(whole.asked =~= seen + whole.asked);
        while i < children.len()
            invariant
                i <= children.len(),
                at <= pos <= answers.len(),
                kids == Rights::views(children@),
                seen.len() == pos - at,
                whole == Formula::run_until(kids, 0, stop, answers@.skip(at as int)),
                whole == Formula::run_until(kids, i as int, stop, answers@.skip(pos as int)).after(
                    seen,
                ),
            decreases children.len() - i,
        {
            let ghost first = kids[i as int].run(answers@.skip(pos as int));
            assert(kids[i as int] == children@[i as int]@);
            match children[i].walk(answers, pos) {
                Walk::Ask(name) => {
                    assert(whole == first.after(seen));
                    return Walk::Ask(name);
                },
                Walk::Value(value, next) => {
                    if value == stop {
                        assert(whole == first.after(seen));
                        return Walk::Value(stop, next);
                    }
                    proof {
                        assert(answers@.skip(pos as int).skip(first.asked.len() as int)
                            =~= answers@.skip(next as int));
                        let rest = Formula::run_until(
                            kids,
                            i + 1,
                            stop,
                            answers@.skip(next as int),
                        );
                        assert(seen + (first.asked + rest.asked) =~= (seen + first.asked)
                            + rest.asked);
                        seen = seen + first.asked;
                    }
                    pos = next;
                    i += 1;
                },
            }
        }
        assert(whole.asked =~= seen);
        Walk::Value(!stop, pos)
    }

    /// Evaluates this subtree against `user` and reports the answers it got.
    fn check<U: HasPermission>(&self, user: &U) -> (result: (bool, Ghost<Seq<bool>>))
        ensures
            settled_by(user, self@.run(result.1@), result.1@, result.0),
        decreases self,
    {
        match self {
            Rights::All(children) => Rights::check_until(children, false, user),
            Rights::Any(children) => Rights::check_until(children, true, user),
            Rights::NoneOf(children) => {
                let (value, answers) = Rights::check_until(children, false, user);
                (!value, answers)
            },
            Rights::Permission(name) => {
                let answer = user.has(name);
                let ghost answers = seq![answer];
                assert(may_answer(user, name@, answer)) by {
                    assert(call_ensures(U::has, (user, name), answer));
                }
                (answer, Ghost(answers))
            },
            Rights::Never => (false, Ghost(Seq::empty())),
        }
    }

    /// Evaluates `children` in order against `user` until one of them comes
    /// out as `stop`, and reports the answers it got.
    fn check_until<U: HasPermission>(children: &Vec<Rights>, stop: bool, user: &U) -> (result: (
        bool,
        Ghost<Seq<bool>>,
    ))
        ensures
            settled_by(
                user,
                Formula::run_until(Rights::views(children@), 0, stop, result.1@),
                result.1@,
                result.0,
            ),
        decreases children,
    {
        let ghost kids = Rights::views(children@);
        let ghost mut given: Seq<bool> = Seq::empty();
        let ghost mut seen: Seq<Seq<char>> = Seq::empty();
        let mut i: usize = 0;
        assert forall|more: Seq<bool>| #[trigger]
            Formula::run_until(kids, 0, stop, given + more) == Formula::run_until(
                kids,
                0,
                stop,
                more,
            ).after(seen) by {
            assert(given + more =~= more);
            assert(seen + Formula::run_until(kids, 0, stop, more).asked
                =~= Formula::run_until(kids, 0, stop, more).asked);
        }
        while i < children.len()
            invariant
                i <= children.len(),
                kids == Rights::views(children@),
                seen.len() == given.len(),
                forall|j: int|
                    0 <= j < given.len() ==> may_answer(user, #[trigger] seen[j], given[j]),
                forall|more: Seq<bool>| #[trigger]
                    Formula::run_until(kids, 0, stop, given + more) == Formula::run_until(
                        kids,
                        i as int,
                        stop,
                        more,
                    ).after(seen),
            decreases children.len() - i,
        {
            let (value, Ghost(used)) = children[i].check(user);
            let ghost first = kids[i as int].run(used);
            assert(kids[i as int] == children@[i as int]@);
            proof {
                assert forall|more: Seq<bool>| #[trigger]
                    Formula::run_until(kids, 0, stop, (given + used) + more) == (if value == stop {
                        first
                    } else {
                        Formula::run_until(kids, i + 1, stop, more).after(first.asked)
                    }).after(seen) by {
                    kids[i as int].lemma_decided_stays(used, more);
                    assert((given + used) + more =~= given + (used + more));
                    assert((used + more).skip(first.asked.len() as int) =~= more);
                    assert(Formula::run_until(kids, 0, stop, given + (used + more))
                        == Formula::run_until(kids, i as int, stop, used + more).after(seen));
                }
                assert forall|j: int| 0 <= j < (given + used).len() implies may_answer(
                    user,
                    #[trigger] (seen + first.asked)[j],
                    (given + used)[j],
                ) by {
                    if j >= given.len() {
                        assert(may_answer(
                            user,
                            first.asked[j - given.len()],
                            used[j - given.len()],
                        ));
                    } else {
                        assert(may_answer(user, seen[j], given[j]));
                    }
                }
            }
            if value == stop {
                proof {
                    assert((given + used) + Seq::<bool>::empty() =~= given + used);
                    assert(Formula::run_until(kids, 0, stop, (given + used) + Seq::<bool>::empty())
                        == first.after(seen));
                }
                return (stop, Ghost(given + used));
            }
            proof {
                assert forall|more: Seq<bool>| #[trigger]
                    Formula::run_until(kids, 0, stop, (given + used) + more) == Formula::run_until(
                        kids,
                        i + 1,
                        stop,
                        more,
                    ).after(seen + first.asked) by {
                    assert(seen + (first.asked + Formula::run_until(kids, i + 1, stop, more).asked)
                        =~= (seen + first.asked) + Formula::run_until(
                        kids,
                        i + 1,
                        stop,
                        more,
                    ).asked);
                }
                given = given + used;
                seen = seen + first.asked;
            }
            i += 1;
        }
        proof {
            assert(given + Seq::<bool>::empty() =~= given);
            assert(Formula::run_until(kids, 0, stop, given + Seq::<bool>::empty())
                == Formula::run_until(kids, i as int, stop, Seq::<bool>::empty()).after(seen));
            assert(seen + Seq::<Seq<char>>::empty() =~= seen);
        }
        (!stop, Ghost(given))
    }

    /// Evaluates the expression against `user`: children in order, each
    /// permission by one call of [`HasPermission::has`] with its name, none
    /// after the child that decides its parent. The result is the decision
    /// that the answers of `user` lead to.
    pub fn evaluate<U: HasPermission>(&self, user: &U) -> (granted: bool)
        ensures
            exists|answers: Seq<bool>| settled_by(user, #[trigger] self@.run(answers), answers, granted),
    {
        let (granted, Ghost(answers)) = self.check(user);
        assert(settled_by(user, self@.run(answers), answers, granted));
        granted
    }

    /// The next step of the evaluation, given the answers received so far
    /// to the questions asked so far, in order: the open question, or the
    /// decision. Answers beyond the decision are not looked at.
    pub fn step<'a>(&'a self, answers: &[bool]) -> (next: Step<'a>)
        ensures
            next.reports(self@.run(answers@)),
    {
        assert(answers@.skip(0) =~= answers@);
        match self.walk(answers, 0) {
            Walk::Value(value, _) => Step::Done(value),
            Walk::Ask(name) => Step::Ask(name),
        }
    }
}

} // verus!
