use std::sync::Arc;
use std::time::Duration;

use compute_service::compute::{plan, ComputeResult, FanIn, TaskOutcome};
use compute_service::error::AppError;
use compute_service::hits::Endpoint;
use compute_service::service::AppState;
use tokio::runtime::{Builder, Runtime};
use tokio::task::JoinSet;
use tokio::time::sleep;

fn runtime() -> Runtime {
    Builder::new_multi_thread().worker_threads(4).enable_time().build().unwrap()
}

async fn compute(requested: usize) -> Result<Vec<ComputeResult>, AppError> {
    let tasks = plan(requested);
    let mut fan_in = FanIn::new(tasks.len());
    let mut running = JoinSet::new();
    for task in tasks {
        running.spawn(async move {
            sleep(Duration::from_millis(task.delay_ms())).await;
            task.run()
        });
    }
    while let Some(joined) = running.join_next().await {
        fan_in.join(match joined {
            Ok(result) => TaskOutcome::Completed(result),
            Err(_) => TaskOutcome::Aborted,
        });
    }
    fan_in.finish()
}

fn assert_results_of(results: &[ComputeResult], count: usize) {
    assert_eq!(results.len(), count);
    let mut indices: Vec<usize> = results.iter().map(|r| r.index).collect();
    indices.sort();
    assert_eq!(indices, (0..count).collect::<Vec<usize>>());
    for result in results {
        assert_eq!(result.value, result.index * result.index);
        assert_eq!(result.ms, 50 + 30 * (result.index as u64));
    }
}

#[test]
fn five_tasks_run_at_once_and_all_arrive() {
    let results = runtime().block_on(compute(5)).unwrap();
    let mut pairs: Vec<(usize, usize)> = results.iter().map(|r| (r.index, r.value)).collect();
    pairs.sort();
    assert_eq!(pairs, vec![(0, 0), (1, 1), (2, 4), (3, 9), (4, 16)]);
    assert_results_of(&results, 5);
}

#[test]
fn no_task_gives_an_empty_answer_at_once() {
    assert_eq!(runtime().block_on(compute(0)), Ok(vec![]));
}

#[test]
fn a_hundred_tasks_are_clamped_to_the_cap() {
    let rt = runtime();
    let hundred = rt.block_on(compute(100)).unwrap();
    let cap = rt.block_on(compute(32)).unwrap();
    assert_results_of(&hundred, 32);
    assert_results_of(&cap, 32);
}

#[test]
fn callers_at_once_keep_their_own_results() {
    let rt = runtime();
    rt.block_on(async {
        let mut callers = JoinSet::new();
        for requested in [3usize, 7, 0, 12, 40, 1] {
            callers.spawn(async move { (requested, compute(requested).await) });
        }
        let mut answered = 0;
        while let Some(joined) = callers.join_next().await {
            let (requested, results) = joined.unwrap();
            assert_results_of(&results.unwrap(), requested.min(32));
            answered += 1;
        }
        assert_eq!(answered, 6);
    });
}

#[test]
fn an_aborted_task_is_an_internal_error() {
    let rt = runtime();
    let outcome = rt.block_on(async {
        let tasks = plan(3);
        let mut fan_in = FanIn::new(tasks.len());
        let mut running = JoinSet::new();
        for task in tasks {
            let handle = running.spawn(async move {
                sleep(Duration::from_millis(task.delay_ms())).await;
                task.run()
            });
            if task.index() == 2 {
                handle.abort();
            }
        }
        while let Some(joined) = running.join_next().await {
            fan_in.join(match joined {
                Ok(result) => TaskOutcome::Completed(result),
                Err(_) => TaskOutcome::Aborted,
            });
        }
        assert_eq!(fan_in.arrived(), 2);
        fan_in.finish()
    });
    let error = outcome.unwrap_err();
    assert!(matches!(error, AppError::Internal(_)));
    assert_eq!(error.into_response().status, 500);
}

#[test]
fn increments_at_once_are_all_counted() {
    let rt = runtime();
    let app = Arc::new(AppState::new());
    let workers: u64 = 8;
    let each: u64 = 2500;
    rt.block_on(async {
        let mut running = JoinSet::new();
        for _ in 0..workers {
            let app = Arc::clone(&app);
            running.spawn(async move {
                for _ in 0..each {
                    app.health();
                    app.counters().increment(Endpoint::Echo);
                }
            });
        }
        while let Some(joined) = running.join_next().await {
            joined.unwrap();
        }
    });
    let hits = app.metrics().hits;
    assert_eq!(hits.health, workers * each);
    assert_eq!(hits.echo, workers * each);
    assert_eq!(hits.root, 0);
    assert_eq!(hits.sum, 0);
    assert_eq!(hits.parallel, 0);
}
