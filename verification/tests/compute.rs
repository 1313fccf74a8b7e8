use compute_service::compute::{
    clamp_count, plan, ComputeResult, FanIn, TaskOutcome, BASE_MS, MAX_TASKS, STEP_MS,
};
use compute_service::error::AppError;

fn compute(requested: usize) -> Result<Vec<ComputeResult>, AppError> {
    let tasks = plan(requested);
    let mut fan_in = FanIn::new(tasks.len());
    for task in tasks.iter() {
        fan_in.join(TaskOutcome::Completed(task.run()));
    }
    fan_in.finish()
}

#[test]
fn compute_five_gives_five_results() {
    let results = compute(5).unwrap();
    assert_eq!(results.len(), 5);
    let mut pairs: Vec<(usize, usize)> = results.iter().map(|r| (r.index, r.value)).collect();
    pairs.sort();
    assert_eq!(pairs, vec![(0, 0), (1, 1), (2, 4), (3, 9), (4, 16)]);
    for result in results.iter() {
        assert_eq!(result.ms, 50 + (result.index as u64) * 30);
    }
}

#[test]
fn compute_zero_gives_nothing() {
    assert!(plan(0).is_empty());
    assert_eq!(compute(0), Ok(vec![]));
}

#[test]
fn compute_clamps_to_the_cap() {
    assert_eq!(clamp_count(100), 32);
    assert_eq!(clamp_count(32), 32);
    assert_eq!(clamp_count(31), 31);
    assert_eq!(clamp_count(usize::MAX), 32);
    assert_eq!(MAX_TASKS, 32);
    let hundred = compute(100).unwrap();
    let cap = compute(32).unwrap();
    assert_eq!(hundred.len(), 32);
    assert_eq!(hundred, cap);
}

#[test]
fn task_waits_and_yields_by_its_index() {
    assert_eq!(BASE_MS, 50);
    assert_eq!(STEP_MS, 30);
    let tasks = plan(32);
    assert_eq!(tasks.len(), 32);
    for (i, task) in tasks.iter().enumerate() {
        assert_eq!(task.index(), i);
        assert_eq!(task.delay_ms(), 50 + 30 * (i as u64));
        assert_eq!(task.run(), ComputeResult { index: i, value: i * i, ms: 50 + 30 * (i as u64) });
    }
    assert_eq!(tasks[31].run(), ComputeResult { index: 31, value: 961, ms: 980 });
    assert_eq!(tasks[0].run(), ComputeResult { index: 0, value: 0, ms: 50 });
}

#[test]
fn results_come_back_in_the_order_of_arrival() {
    let tasks = plan(4);
    let mut fan_in = FanIn::new(tasks.len());
    for place in [2usize, 0, 3, 1] {
        fan_in.join(TaskOutcome::Completed(tasks[place].run()));
    }
    assert_eq!(fan_in.arrived(), 4);
    let results = fan_in.finish().unwrap();
    let indices: Vec<usize> = results.iter().map(|r| r.index).collect();
    assert_eq!(indices, vec![2, 0, 3, 1]);
    let values: Vec<usize> = results.iter().map(|r| r.value).collect();
    assert_eq!(values, vec![4, 0, 9, 1]);
}

#[test]
fn an_aborted_task_fails_the_whole_request() {
    let tasks = plan(3);
    let mut fan_in = FanIn::new(tasks.len());
    fan_in.join(TaskOutcome::Completed(tasks[0].run()));
    fan_in.join(TaskOutcome::Aborted);
    fan_in.join(TaskOutcome::Completed(tasks[2].run()));
    let err = fan_in.finish().unwrap_err();
    assert_eq!(err, AppError::Internal("并发任务未能全部完成".to_string()));
    assert_eq!(err.status_code(), 500);
}

#[test]
fn an_aborted_task_fails_the_request_even_with_enough_results() {
    let tasks = plan(2);
    let mut fan_in = FanIn::new(tasks.len());
    fan_in.join(TaskOutcome::Completed(tasks[0].run()));
    fan_in.join(TaskOutcome::Completed(tasks[1].run()));
    fan_in.join(TaskOutcome::Aborted);
    assert!(matches!(fan_in.finish(), Err(AppError::Internal(_))));
}

#[test]
fn missing_results_fail_the_whole_request() {
    let tasks = plan(3);
    let mut fan_in = FanIn::new(tasks.len());
    fan_in.join(TaskOutcome::Completed(tasks[0].run()));
    fan_in.join(TaskOutcome::Completed(tasks[1].run()));
    assert!(matches!(fan_in.finish(), Err(AppError::Internal(_))));
    let fan_in = FanIn::new(1);
    assert!(matches!(fan_in.finish(), Err(AppError::Internal(_))));
}

#[test]
fn callers_do_not_disturb_each_other() {
    let first_tasks = plan(6);
    let second_tasks = plan(3);
    let mut first = FanIn::new(first_tasks.len());
    let mut second = FanIn::new(second_tasks.len());
    for step in 0..6 {
        first.join(TaskOutcome::Completed(first_tasks[5 - step].run()));
        if step < 3 {
            second.join(TaskOutcome::Completed(second_tasks[step].run()));
        }
    }
    for result in first.finish().unwrap().iter().chain(second.finish().unwrap().iter()) {
        assert_eq!(result.value, result.index * result.index);
        assert_eq!(result.ms, 50 + 30 * (result.index as u64));
    }
}
