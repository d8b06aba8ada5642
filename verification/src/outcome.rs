//! Outcomes of requests that may fail, put together.
use crate::error::{KubeError, LornError};
use crate::objects::{Deployment, Job, Pod, StatefulSet, Workloads};
#[allow(unused_imports)]
use crate::search::{first, lemma_first, lemma_first_at, lemma_first_concat, lemma_first_none};
use vstd::prelude::*;

verus! {

/// An outcome, with its elements as they are seen in contracts.
pub open spec fn viewed<T: DeepView>(outcome: Result<Vec<T>, LornError>) -> Result<
    Seq<T::V>,
    LornError,
> {
    match outcome {
        Ok(row) => Ok(row.deep_view()),
        Err(error) => Err(error),
    }
}

/// The first outcome that is a failure, if there is one.
pub open spec fn first_failure<T>(outcomes: Seq<Result<T, LornError>>) -> Option<
    Result<T, LornError>,
> {
    first(outcomes, |outcome: Result<T, LornError>| outcome is Err)
}

/// The rows of outcomes that all succeeded.
pub open spec fn rows<T>(outcomes: Seq<Result<Seq<T>, LornError>>) -> Seq<Seq<T>> {
    outcomes.map_values(|outcome: Result<Seq<T>, LornError>| outcome->Ok_0)
}

/// What outcomes come to together: their rows one behind the other where all
/// succeeded, or else the error of the first failure and no row at all.
pub open spec fn joined<T>(outcomes: Seq<Result<Seq<T>, LornError>>) -> Result<
    Seq<T>,
    LornError,
> {
    match first_failure(outcomes) {
        Some(failure) => Err(failure->Err_0),
        None => Ok(rows(outcomes).flatten()),
    }
}

/// What two outcomes come to together.
pub open spec fn both<T>(
    left: Result<Seq<T>, LornError>,
    right: Result<Seq<T>, LornError>,
) -> Result<Seq<T>, LornError> {
    match (left, right) {
        (Ok(first), Ok(second)) => Ok(first + second),
        (Err(error), _) => Err(error),
        (Ok(_), Err(error)) => Err(error),
    }
}

/// Puts outcomes together.
pub fn join<T: DeepView>(outcomes: Vec<Result<Vec<T>, LornError>>) -> (whole: Result<
    Vec<T>,
    LornError,
>)
    ensures
        viewed(whole) == joined(
            outcomes@.map_values(|outcome: Result<Vec<T>, LornError>| viewed(outcome)),
        ),
{
    let ghost all = outcomes@.map_values(|outcome: Result<Vec<T>, LornError>| viewed(outcome));
    let ghost failed = |outcome: Result<Seq<T::V>, LornError>| outcome is Err;
    let mut whole: Vec<T> = Vec::new();
    assert(whole.deep_view() =~= rows(all.take(0)).flatten());
    for outcome in it: outcomes
        invariant
            it.seq() == outcomes@,
            all == outcomes@.map_values(|outcome: Result<Vec<T>, LornError>| viewed(outcome)),
            failed == (|outcome: Result<Seq<T::V>, LornError>| outcome is Err),
            forall|j: int| 0 <= j < it.index() ==> !failed(#[trigger] all[j]),
            whole.deep_view() == rows(all.take(it.index() as int)).flatten(),
    {
        let ghost i = it.index() as int;
        let ghost before = whole.deep_view();
        assert(all[i] == viewed(outcome));
        match outcome {
            Ok(row) => {
                let ghost added = row.deep_view();
                let mut more = row;
                whole.append(&mut more);
                proof {
                    assert(whole.deep_view() =~= before + added);
                    assert(rows(all.take(i + 1)) =~= rows(all.take(i)).push(added));
                    rows(all.take(i)).lemma_flatten_push(added);
                }
            },
            Err(error) => {
                proof {
                    lemma_first_at(all, failed, i);
                }
                return Err(error);
            },
        }
    }
    proof {
        lemma_first_none(all, failed);
        assert(all.take(all.len() as int) =~= all);
    }
    Ok(whole)
}

/// Nothing comes to an empty row, one outcome to itself, and two lists of
/// outcomes to what each of them comes to: their rows one behind the other, or
/// a failure where either fails.
pub proof fn law_joined<T>(
    left: Seq<Result<Seq<T>, LornError>>,
    right: Seq<Result<Seq<T>, LornError>>,
    one: Result<Seq<T>, LornError>,
)
    ensures
        joined(Seq::<Result<Seq<T>, LornError>>::empty()) == Ok::<Seq<T>, LornError>(Seq::empty()),
        joined(seq![one]) == one,
        joined(left + right) == both(joined(left), joined(right)),
{
    let failed = |outcome: Result<Seq<T>, LornError>| outcome is Err;
    let none = Seq::<Result<Seq<T>, LornError>>::empty();
    lemma_first_none(none, failed);
    assert(rows(none).flatten() =~= Seq::empty());
    if one is Err {
        lemma_first_at(seq![one], failed, 0);
    } else {
        lemma_first_none(seq![one], failed);
        assert(rows(seq![one]) =~= seq![one->Ok_0]);
        seq![one->Ok_0].lemma_flatten_one_element();
    }
    lemma_first_concat(left, right, failed);
    lemma_first(left, failed);
    lemma_first(right, failed);
    assert(rows(left + right) =~= rows(left) + rows(right));
    vstd::seq_lib::lemma_flatten_concat(rows(left), rows(right));
}

/// Outcomes succeed together exactly where each of them succeeds; otherwise
/// the error is that of one of them.
pub proof fn law_all_or_nothing<T>(outcomes: Seq<Result<Seq<T>, LornError>>)
    ensures
        joined(outcomes) is Ok <==> forall|i: int|
            0 <= i < outcomes.len() ==> (#[trigger] outcomes[i]) is Ok,
        joined(outcomes) matches Err(error) ==> exists|i: int|
            0 <= i < outcomes.len() && #[trigger] outcomes[i] == Err::<Seq<T>, LornError>(error),
{
    lemma_first(outcomes, |outcome: Result<Seq<T>, LornError>| outcome is Err);
}

/// What the lists of the workloads of one namespace come to: the workloads
/// where all succeeded, or else the error of the first list that failed.
pub open spec fn gathered(
    pods: Result<Vec<Pod>, KubeError>,
    stateful_sets: Result<Vec<StatefulSet>, KubeError>,
    deployments: Result<Vec<Deployment>, KubeError>,
    jobs: Result<Vec<Job>, KubeError>,
) -> Result<Workloads, LornError> {
    match (pods, stateful_sets, deployments, jobs) {
        (Ok(pods), Ok(stateful_sets), Ok(deployments), Ok(jobs)) => Ok(
            Workloads { pods, stateful_sets, deployments, jobs },
        ),
        (Err(error), _, _, _) => Err(LornError::Kube(error)),
        (_, Err(error), _, _) => Err(LornError::Kube(error)),
        (_, _, Err(error), _) => Err(LornError::Kube(error)),
        (_, _, _, Err(error)) => Err(LornError::Kube(error)),
    }
}

/// The workloads of one namespace, from what the server answered to the list
/// of each kind.
pub fn gather_workloads(
    pods: Result<Vec<Pod>, KubeError>,
    stateful_sets: Result<Vec<StatefulSet>, KubeError>,
    deployments: Result<Vec<Deployment>, KubeError>,
    jobs: Result<Vec<Job>, KubeError>,
) -> (workloads: Result<Workloads, LornError>)
    ensures
        workloads == gathered(pods, stateful_sets, deployments, jobs),
{
    match (pods, stateful_sets, deployments, jobs) {
        (Ok(pods), Ok(stateful_sets), Ok(deployments), Ok(jobs)) => Ok(
            Workloads { pods, stateful_sets, deployments, jobs },
        ),
        (Err(error), _, _, _) => Err(LornError::Kube(error)),
        (_, Err(error), _, _) => Err(LornError::Kube(error)),
        (_, _, Err(error), _) => Err(LornError::Kube(error)),
        (_, _, _, Err(error)) => Err(LornError::Kube(error)),
    }
}

/// Rows come together in order where there is no failure, and the first failure
/// is that of the whole: what stands before it must have succeeded, and what
/// stands behind it does not matter.
pub proof fn law_joined_in_turn<T>(
    outcomes: Seq<Result<Seq<T>, LornError>>,
    row: Seq<T>,
    error: LornError,
    behind: Seq<Result<Seq<T>, LornError>>,
)
    ensures
        joined(outcomes) matches Ok(before) ==> {
            &&& joined(outcomes.push(Ok(row))) == Ok::<Seq<T>, LornError>(before + row)
            &&& joined(outcomes.push(Err(error)) + behind) == Err::<Seq<T>, LornError>(error)
        },
        joined(outcomes) matches Err(earlier) ==> joined(outcomes + behind) == Err::<
            Seq<T>,
            LornError,
        >(earlier),
{
    law_joined(outcomes, seq![Ok(row)], Ok(row));
    assert(outcomes.push(Ok(row)) =~= outcomes + seq![Ok(row)]);
    law_joined(outcomes, seq![Err(error)], Err(error));
    assert(outcomes.push(Err(error)) =~= outcomes + seq![Err(error)]);
    law_joined(outcomes.push(Err(error)), behind, Ok(row));
    law_joined(outcomes, behind, Ok(row));
}

/// The workloads of a namespace are what its four lists hold; where a list
/// failed the error is that of the first that did.
pub proof fn law_gathered(
    pods: Result<Vec<Pod>, KubeError>,
    stateful_sets: Result<Vec<StatefulSet>, KubeError>,
    deployments: Result<Vec<Deployment>, KubeError>,
    jobs: Result<Vec<Job>, KubeError>,
)
    ensures
        gathered(pods, stateful_sets, deployments, jobs) is Ok <==> pods is Ok
            && stateful_sets is Ok && deployments is Ok && jobs is Ok,
        gathered(pods, stateful_sets, deployments, jobs) matches Ok(workloads) ==> {
            &&& pods == Ok::<Vec<Pod>, KubeError>(workloads.pods)
            &&& stateful_sets == Ok::<Vec<StatefulSet>, KubeError>(workloads.stateful_sets)
            &&& deployments == Ok::<Vec<Deployment>, KubeError>(workloads.deployments)
            &&& jobs == Ok::<Vec<Job>, KubeError>(workloads.jobs)
        },
        gathered(pods, stateful_sets, deployments, jobs) matches Err(error) ==> error
            == LornError::Kube(
            if pods is Err {
                pods->Err_0
            } else if stateful_sets is Err {
                stateful_sets->Err_0
            } else if deployments is Err {
                deployments->Err_0
            } else {
                jobs->Err_0
            },
        ),
{
}


/// An outcome is seen with as many elements as it has, each as it is seen by
/// itself and at its place; a failure is seen as it is.
pub proof fn law_outcome_seen<T: DeepView>(row: Vec<T>, i: int, error: LornError)
    ensures
        viewed(Ok::<Vec<T>, LornError>(row)) is Ok,
        viewed(Ok::<Vec<T>, LornError>(row))->Ok_0.len() == row@.len(),
        0 <= i < row@.len() ==> viewed(Ok::<Vec<T>, LornError>(row))->Ok_0[i]
            == row@[i].deep_view(),
        viewed(Err::<Vec<T>, LornError>(error)) == Err::<Seq<T::V>, LornError>(error),
{
}


} // verus!
