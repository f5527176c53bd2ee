//! Trying the candidate addresses of one endpoint, in order.

use vstd::prelude::*;
use crate::error::{Error, OsError, ResolutionFault};

verus! {

/// `outcomes` is the record of one run over `candidates`, where `step(a, r)`
/// says that `r` is a possible answer of the constructor for the address `a`:
/// `outcomes[j]` is the answer for `candidates[j]`, the constructor was asked
/// about a prefix of the candidates with no gap, every answer but the last was
/// a failure, and the run went on to the end unless an answer was a success.
pub open spec fn is_run_by<A, T>(
    step: spec_fn(A, Result<T, Error>) -> bool,
    candidates: Seq<A>,
    outcomes: Seq<Result<T, Error>>,
) -> bool {
    &&& outcomes.len() <= candidates.len()
    &&& candidates.len() > 0 ==> outcomes.len() > 0
    &&& forall|j: int| 0 <= j < outcomes.len() ==> step(candidates[j], #[trigger] outcomes[j])
    &&& forall|j: int| 0 <= j < outcomes.len() - 1 ==> (#[trigger] outcomes[j]).is_err()
    &&& outcomes.len() < candidates.len() ==> outcomes.last().is_ok()
}

/// `outcomes` is the record of one run of the constructor `f` over `candidates`.
pub open spec fn is_run<A, T, F: Fn(&A) -> Result<T, Error>>(
    f: F,
    candidates: Seq<A>,
    outcomes: Seq<Result<T, Error>>,
) -> bool {
    is_run_by(|a: A, r: Result<T, Error>| call_ensures(f, (&a,), r), candidates, outcomes)
}

/// What a run returns: the last answer it got, or a resolution error where
/// there was no candidate to ask about.
pub open spec fn verdict<T>(outcomes: Seq<Result<T, Error>>) -> Result<T, Error> {
    if outcomes.len() == 0 {
        Err(Error::Resolution(ResolutionFault::NoAddresses))
    } else {
        outcomes.last()
    }
}

/// The first success in `answers`, else the last failure, else a resolution
/// error.
pub open spec fn first_success_or_last_failure<T>(answers: Seq<Result<T, Error>>) -> Result<
    T,
    Error,
>
    decreases answers.len(),
{
    if answers.len() == 0 {
        Err(Error::Resolution(ResolutionFault::NoAddresses))
    } else if answers.first().is_ok() || answers.len() == 1 {
        answers.first()
    } else {
        first_success_or_last_failure(answers.skip(1))
    }
}

/// The constructor answers candidate `j` with `answers[j]` and nothing else.
pub open spec fn answers_with<A, T>(
    step: spec_fn(A, Result<T, Error>) -> bool,
    candidates: Seq<A>,
    answers: Seq<Result<T, Error>>,
) -> bool {
    &&& answers.len() == candidates.len()
    &&& forall|j: int, r: Result<T, Error>|
        0 <= j < candidates.len() && #[trigger] step(candidates[j], r) ==> r == answers[j]
}

/// Applies `f` to each candidate address in order and returns the first
/// success. If every candidate fails, the error of the last one is returned and
/// the earlier ones are discarded. A failed resolution, or one that yields no
/// address, is a resolution error, and `f` is not called.
pub fn each_addr<A, T, F>(resolved: Result<Vec<A>, OsError>, f: F) -> (r: Result<T, Error>) where
    F: Fn(&A) -> Result<T, Error>,

    requires
        resolved matches Ok(c) ==> forall|j: int|
            0 <= j < c@.len() ==> call_requires(f, (&#[trigger] c@[j],)),
    ensures
        match resolved {
            Err(os) => r == Err::<T, Error>(Error::of_resolver(os)),
            Ok(c) => exists|outcomes: Seq<Result<T, Error>>| #[trigger]
                is_run(f, c@, outcomes) && r == verdict(outcomes),
        },
{
    let candidates = match resolved {
        Ok(c) => c,
        Err(os) => {
            return Err(Error::Resolution(ResolutionFault::Failed(os)));
        },
    };
    let ghost mut outcomes: Seq<Result<T, Error>> = Seq::empty();
    let mut last: Result<T, Error> = Err(Error::Resolution(ResolutionFault::NoAddresses));
    let mut i: usize = 0;
    while i < candidates.len() && last.is_err()
        invariant
            i <= candidates.len(),
            forall|j: int|
                0 <= j < candidates@.len() ==> call_requires(f, (&#[trigger] candidates@[j],)),
            outcomes.len() == i,
            forall|j: int|
                0 <= j < i ==> call_ensures(f, (&candidates@[j],), #[trigger] outcomes[j]),
            forall|j: int| 0 <= j < i - 1 ==> (#[trigger] outcomes[j]).is_err(),
            verdict(outcomes) == last,
        decreases candidates.len() - i,
    {
        last = f(&candidates[i]);
        proof {
            outcomes = outcomes.push(last);
        }
        i = i + 1;
    }
    proof {
        assert(is_run(f, candidates@, outcomes));
    }
    last
}

/// A run of a constructor is a run by every description of its answers.
pub proof fn lemma_run_by<A, T, F: Fn(&A) -> Result<T, Error>>(
    f: F,
    step: spec_fn(A, Result<T, Error>) -> bool,
    candidates: Seq<A>,
    outcomes: Seq<Result<T, Error>>,
)
    requires
        is_run(f, candidates, outcomes),
        forall|j: int, r: Result<T, Error>|
            0 <= j < candidates.len() && #[trigger] call_ensures(f, (&candidates[j],), r) ==> step(
                candidates[j],
                r,
            ),
    ensures
        is_run_by(step, candidates, outcomes),
{
    assert forall|j: int| 0 <= j < outcomes.len() implies step(
        candidates[j],
        #[trigger] outcomes[j],
    ) by {
        assert(call_ensures(f, (&candidates[j],), outcomes[j]));
    }
}

/// The constructor is asked about the candidates strictly in their order, about
/// no more of them than there are, and never again after a success: only the
/// last answer of a run can be a success, and it is what the run returns.
pub proof fn lemma_run_stops_at_first_success<A, T>(
    step: spec_fn(A, Result<T, Error>) -> bool,
    candidates: Seq<A>,
    outcomes: Seq<Result<T, Error>>,
)
    requires
        is_run_by(step, candidates, outcomes),
    ensures
        outcomes.len() <= candidates.len(),
        forall|j: int| 0 <= j < outcomes.len() ==> step(candidates[j], #[trigger] outcomes[j]),
        forall|j: int|
            0 <= j < outcomes.len() && (#[trigger] outcomes[j]).is_ok() ==> j == outcomes.len() - 1,
        verdict(outcomes).is_ok() ==> outcomes.len() > 0 && verdict(outcomes) == outcomes.last(),
{
}

/// Where every candidate fails, every candidate was tried and the error
/// returned is the one of the last candidate, not an earlier one.
pub proof fn lemma_all_failed_returns_last_error<A, T>(
    step: spec_fn(A, Result<T, Error>) -> bool,
    candidates: Seq<A>,
    outcomes: Seq<Result<T, Error>>,
)
    requires
        is_run_by(step, candidates, outcomes),
        candidates.len() > 0,
        verdict(outcomes).is_err(),
    ensures
        outcomes.len() == candidates.len(),
        forall|j: int| 0 <= j < outcomes.len() ==> (#[trigger] outcomes[j]).is_err(),
        verdict(outcomes) == outcomes[candidates.len() - 1],
        step(candidates.last(), verdict(outcomes)),
{
}

proof fn lemma_select_prefix<T>(answers: Seq<Result<T, Error>>, n: int)
    requires
        0 < n <= answers.len(),
        forall|j: int| 0 <= j < n - 1 ==> (#[trigger] answers[j]).is_err(),
        n < answers.len() ==> answers[n - 1].is_ok(),
    ensures
        first_success_or_last_failure(answers) == answers[n - 1],
    decreases n,
{
    if answers.first().is_ok() || answers.len() == 1 {
        if n > 1 {
            assert(answers[0].is_err());
        }
    } else {
        let rest = answers.skip(1);
        assert(n > 1) by {
            if n == 1 {
                assert(answers[n - 1].is_ok());
            }
        }
        assert forall|j: int| 0 <= j < n - 2 implies (#[trigger] rest[j]).is_err() by {
            assert(rest[j] == answers[j + 1]);
        }
        lemma_select_prefix(rest, n - 1);
        assert(rest[n - 2] == answers[n - 1]);
    }
}

/// With a constructor whose answers are fixed, a run asks about the candidates
/// up to the first that succeeds, and returns the first success among the
/// answers, or the last failure where there is none.
pub proof fn lemma_run_of_fixed_answers<A, T>(
    step: spec_fn(A, Result<T, Error>) -> bool,
    candidates: Seq<A>,
    answers: Seq<Result<T, Error>>,
    outcomes: Seq<Result<T, Error>>,
)
    requires
        is_run_by(step, candidates, outcomes),
        answers_with(step, candidates, answers),
    ensures
        outcomes =~= answers.take(outcomes.len() as int),
        verdict(outcomes) == first_success_or_last_failure(answers),
{
    assert forall|j: int| 0 <= j < outcomes.len() implies outcomes[j] == answers[j] by {
        assert(step(candidates[j], outcomes[j]));
    }
    if candidates.len() > 0 {
        let n = outcomes.len() as int;
        assert forall|j: int| 0 <= j < n - 1 implies (#[trigger] answers[j]).is_err() by {
            assert(outcomes[j].is_err());
        }
        lemma_select_prefix(answers, n);
    }
}

} // verus!
