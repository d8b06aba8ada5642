use lorn::error::{KubeError, LornError};
use lorn::objects::{ObjectMeta, Pod};
use lorn::outcome::{gather_workloads, join};

fn failed(code: u16) -> KubeError {
    KubeError::Api { code, text: format!("status {code}") }
}

fn code<T>(outcome: Result<T, LornError>) -> Option<u16> {
    match outcome {
        Err(LornError::Kube(KubeError::Api { code, .. })) => Some(code),
        _ => None,
    }
}

fn rows(outcomes: &[Result<&[u8], u16>]) -> Vec<Result<Vec<u8>, LornError>> {
    outcomes
        .iter()
        .map(|outcome| match outcome {
            Ok(row) => Ok(row.to_vec()),
            Err(code) => Err(LornError::Kube(failed(*code))),
        })
        .collect()
}

#[test]
fn rows_are_joined_in_order() {
    assert!(join(rows(&[])).unwrap().is_empty());
    assert_eq!(join(rows(&[Ok(&[3, 1])])).unwrap(), [3, 1]);
    assert_eq!(join(rows(&[Ok(&[3, 1]), Ok(&[]), Ok(&[2, 3])])).unwrap(), [3, 1, 2, 3]);
}

#[test]
fn the_first_failure_is_that_of_the_whole() {
    assert_eq!(code(join(rows(&[Err(500)]))), Some(500));
    assert_eq!(code(join(rows(&[Ok(&[1]), Err(403), Ok(&[2]), Err(500)]))), Some(403));
}

#[test]
fn workloads_need_every_list() {
    let pod = Pod {
        metadata: ObjectMeta { name: None, namespace: None, labels: None, owner_references: None },
        spec: None,
    };
    let workloads = gather_workloads(Ok(vec![pod]), Ok(vec![]), Ok(vec![]), Ok(vec![])).unwrap();
    assert_eq!(workloads.pods.len(), 1);
    assert!(workloads.stateful_sets.is_empty());
    assert!(workloads.deployments.is_empty());
    assert!(workloads.jobs.is_empty());

    let late = 500;
    let first = gather_workloads(Err(failed(1)), Err(failed(late)), Ok(vec![]), Ok(vec![]));
    assert_eq!(code(first), Some(1));
    let second = gather_workloads(Ok(vec![]), Err(failed(2)), Ok(vec![]), Err(failed(late)));
    assert_eq!(code(second), Some(2));
    let third = gather_workloads(Ok(vec![]), Ok(vec![]), Err(failed(3)), Err(failed(late)));
    assert_eq!(code(third), Some(3));
    let fourth = gather_workloads(Ok(vec![]), Ok(vec![]), Ok(vec![]), Err(failed(4)));
    assert_eq!(code(fourth), Some(4));
}
