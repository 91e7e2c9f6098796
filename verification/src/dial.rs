//! The TCP outbound dispatch policy: the parsed destination followed by
//! the configured fallback pool, attempted strictly in order, where a
//! reset-classified dial failure advances to the next candidate and any
//! other failure aborts the whole tunnel.
use vstd::prelude::*;

verus! {

/// How one dial attempt ended, as the host's socket reports it.
#[derive(Clone, Copy, PartialEq, Eq, Structural, Debug)]
pub enum DialOutcome {
    /// The connection opened and became writable.
    Opened,
    /// The connection was actively reset: this candidate only has failed.
    Reset,
    /// Any other failure class: fatal to the whole tunnel.
    OtherFailure,
}

/// What the dispatcher does after an attempt's outcome is known.
#[derive(Clone, Copy, PartialEq, Eq, Structural, Debug)]
pub enum DialStep {
    /// The attempt opened: write the response header and start forwarding.
    Forward,
    /// The attempt was reset: dial the next candidate.
    TryNext,
    /// A non-reset failure: abort the tunnel, trying no further candidate.
    FailOther,
    /// Every candidate was reset: fail with no target reachable.
    FailNoTarget,
}

/// The ordered dial plan for a TCP destination, and how far it has
/// advanced.
pub struct DialPlan {
    candidates: Vec<String>,
    next: usize,
    outcomes: Ghost<Seq<DialOutcome>>,
}

/// Whether every outcome so far was a reset — the only state in which
/// the policy keeps dialing.
pub open spec fn all_reset(outcomes: Seq<DialOutcome>) -> bool {
    forall|i: int| 0 <= i < outcomes.len() ==> outcomes[i] is Reset
}

/// How many attempts the policy makes, given what each candidate's dial
/// would return: every reset advances past one candidate, and the first
/// outcome that is not a reset — opened or fatal — is the last attempt.
pub open spec fn spec_attempt_count(outcomes: Seq<DialOutcome>) -> int
    decreases outcomes.len(),
{
    if outcomes.len() == 0 {
        0
    } else if outcomes[0] is Reset {
        1 + spec_attempt_count(outcomes.drop_first())
    } else {
        1
    }
}

/// The fallback policy attempts exactly the candidates up to and
/// including the first whose dial outcome is not a reset, in order, and
/// never attempts a later one: when candidates before `k` are all reset
/// and candidate `k` is not, exactly `k + 1` attempts are made.
pub proof fn lemma_attempts_stop_at_first_non_reset(outcomes: Seq<DialOutcome>, k: int)
    requires
        0 <= k < outcomes.len(),
        forall|i: int| 0 <= i < k ==> outcomes[i] is Reset,
        !(outcomes[k] is Reset),
    ensures
        spec_attempt_count(outcomes) == k + 1,
    decreases k,
{
    if k > 0 {
        assert(outcomes[0] is Reset);
        let rest = outcomes.drop_first();
        assert(forall|i: int| 0 <= i < k - 1 ==> rest[i] == outcomes[i + 1]);
        lemma_attempts_stop_at_first_non_reset(rest, k - 1);
    }
}

/// When every candidate's dial is reset, all of them are attempted and
/// the plan ends exhausted.
pub proof fn lemma_attempts_exhaust_on_all_reset(outcomes: Seq<DialOutcome>)
    requires
        forall|i: int| 0 <= i < outcomes.len() ==> outcomes[i] is Reset,
    ensures
        spec_attempt_count(outcomes) == outcomes.len(),
    decreases outcomes.len(),
{
    if outcomes.len() > 0 {
        let rest = outcomes.drop_first();
        assert(forall|i: int| 0 <= i < rest.len() ==> rest[i] == outcomes[i + 1]);
        lemma_attempts_exhaust_on_all_reset(rest);
    }
}

impl DialPlan {
    /// The candidates, in the order they are to be attempted.
    pub closed spec fn spec_candidates(&self) -> Seq<String> {
        self.candidates@
    }

    /// The index of the candidate to attempt next; every earlier one was
    /// attempted and reset.
    pub closed spec fn spec_next(&self) -> int {
        self.next as int
    }

    /// The outcomes recorded so far, one per attempted candidate, in
    /// attempt order.
    pub closed spec fn spec_outcomes(&self) -> Seq<DialOutcome> {
        self.outcomes@
    }

    /// While every recorded outcome is a reset, the attempted
    /// candidates are exactly those before `spec_next`, in order.
    pub open spec fn wf(&self) -> bool {
        &&& self.spec_next() <= self.spec_candidates().len()
        &&& (all_reset(self.spec_outcomes()) ==> self.spec_next() == self.spec_outcomes().len())
    }

    /// Build the plan: the parsed destination first, then the configured
    /// fallback pool in its configured order.
    pub fn new(destination: String, fallback: Vec<String>) -> (r: DialPlan)
        ensures
            r.wf(),
            r.spec_candidates() == seq![destination] + fallback@,
            r.spec_next() == 0,
            r.spec_outcomes() == Seq::<DialOutcome>::empty(),
    {
        let mut candidates: Vec<String> = Vec::new();
        candidates.push(destination);
        let mut rest = fallback;
        candidates.append(&mut rest);
        proof {
            assert(candidates@ =~= seq![destination] + fallback@);
        }
        DialPlan { candidates, next: 0, outcomes: Ghost(Seq::empty()) }
    }

    /// All candidates, in attempt order, for reporting which targets an
    /// exhausted plan tried.
    pub fn candidates(&self) -> (r: &Vec<String>)
        ensures
            r@ == self.spec_candidates(),
    {
        &self.candidates
    }

    /// The candidate the dispatcher must dial next, or `None` when the
    /// plan is exhausted.
    pub fn current(&self) -> (r: Option<&String>)
        requires
            self.wf(),
        ensures
            match r {
                Some(c) => self.spec_next() < self.spec_candidates().len() && *c
                    == self.spec_candidates()[self.spec_next()],
                None => self.spec_next() == self.spec_candidates().len(),
            },
    {
        if self.next < self.candidates.len() {
            Some(&self.candidates[self.next])
        } else {
            None
        }
    }

    /// Record how dialing the current candidate ended, and decide: an
    /// opened connection proceeds to forwarding; a reset advances to the
    /// next candidate, failing with no target reachable when none is
    /// left; any other failure aborts at once, no further candidate
    /// attempted. The recorded trace realizes the attempt-count policy:
    /// the first outcome that is not a reset makes the trace's attempt
    /// count its exact length, so exactly the candidates up to and
    /// including the current one were ever attempted.
    pub fn record(&mut self, outcome: DialOutcome) -> (step: DialStep)
        requires
            old(self).wf(),
            old(self).spec_next() < old(self).spec_candidates().len(),
            all_reset(old(self).spec_outcomes()),
        ensures
            final(self).wf(),
            final(self).spec_candidates() == old(self).spec_candidates(),
            final(self).spec_outcomes() == old(self).spec_outcomes().push(outcome),
            (outcome is Reset ==> all_reset(final(self).spec_outcomes())),
            (!(outcome is Reset) ==> spec_attempt_count(final(self).spec_outcomes()) == old(
                self,
            ).spec_next() + 1),
            match outcome {
                DialOutcome::Opened => step == DialStep::Forward && final(self).spec_next() == old(
                    self,
                ).spec_next(),
                DialOutcome::Reset => final(self).spec_next() == old(self).spec_next() + 1 && step
                    == (if final(self).spec_next() < final(self).spec_candidates().len() {
                    DialStep::TryNext
                } else {
                    DialStep::FailNoTarget
                }),
                DialOutcome::OtherFailure => step == DialStep::FailOther && final(self).spec_next()
                    == old(self).spec_next(),
            },
    {
        proof {
            self.outcomes@ = self.outcomes@.push(outcome);
            if !(outcome is Reset) {
                assert(forall|i: int|
                    0 <= i < old(self).spec_outcomes().len() ==> self.outcomes@[i] is Reset);
                lemma_attempts_stop_at_first_non_reset(self.outcomes@, old(self).spec_next());
            } else {
                assert(all_reset(self.outcomes@)) by {
                    assert(forall|i: int|
                        0 <= i < self.outcomes@.len() ==> self.outcomes@[i] is Reset);
                }
            }
        }
        match outcome {
            DialOutcome::Opened => DialStep::Forward,
            DialOutcome::OtherFailure => DialStep::FailOther,
            DialOutcome::Reset => {
                let len = self.candidates.len();
                self.next = self.next + 1;
                if self.next < len {
                    DialStep::TryNext
                } else {
                    DialStep::FailNoTarget
                }
            },
        }
    }
}

} // verus!
