use compute_service::compute::TaskOutcome;
use compute_service::counters::RequestCounters;
use compute_service::error::AppError;
use compute_service::hits::{Endpoint, HitCounts};
use compute_service::service::{AppState, MetricsReport, DEFAULT_TASKS};
use compute_service::uptime::ServiceUptime;

#[test]
fn counters_count_every_increment() {
    let counters = RequestCounters::new();
    assert_eq!(counters.snapshot(), HitCounts::new());
    let k: u64 = 1000;
    for _ in 0..k {
        counters.increment(Endpoint::Health);
    }
    counters.increment(Endpoint::Echo);
    assert_eq!(counters.load(Endpoint::Health), k);
    let hits = counters.snapshot();
    assert_eq!(hits.health, k);
    assert_eq!(hits.get(Endpoint::Health), k);
    assert_eq!(hits, HitCounts { root: 0, health: k, sum: 0, echo: 1, parallel: 0 });
}

#[test]
fn hit_counts_record_one_request_at_a_time() {
    let mut hits = HitCounts::new();
    for endpoint in Endpoint::all() {
        assert_eq!(hits.get(endpoint), 0);
    }
    for _ in 0..7 {
        hits.record(Endpoint::Health);
    }
    hits.record(Endpoint::Sum);
    hits.record(Endpoint::Parallel);
    hits.record(Endpoint::Parallel);
    assert_eq!(hits, HitCounts { root: 0, health: 7, sum: 1, echo: 0, parallel: 2 });
    hits.record(Endpoint::Root);
    hits.record(Endpoint::Echo);
    assert_eq!(hits, HitCounts { root: 1, health: 7, sum: 1, echo: 1, parallel: 2 });
}

#[test]
fn hit_counts_start_again_after_the_last_count() {
    let mut hits = HitCounts { root: u64::MAX - 1, health: 0, sum: 0, echo: 0, parallel: 0 };
    hits.record(Endpoint::Root);
    assert_eq!(hits.root, u64::MAX);
    hits.record(Endpoint::Root);
    assert_eq!(hits.root, 0);
}

#[test]
fn endpoints_have_their_names() {
    let names: Vec<&str> = Endpoint::all().iter().map(|e| e.name()).collect();
    assert_eq!(names, vec!["root", "health", "sum", "echo", "parallel"]);
}

#[test]
fn handlers_count_and_answer() {
    let app = AppState::new();
    assert_eq!(app.root(), "ok");
    assert_eq!(app.health().status, "healthy");
    assert_eq!(app.health().status, "healthy");
    assert_eq!(app.sum("1,2,3"), Ok(6));
    assert!(matches!(app.sum("1,x"), Err(AppError::BadRequest(_))));
    assert!(app.sum("1,x").unwrap_err().message().contains("x"));
    assert_eq!(app.echo("hi".to_string()), Ok("hi".to_string()));
    let refused = app.echo("".to_string()).unwrap_err();
    assert_eq!(refused.into_response().status, 400);
    let report = app.metrics();
    assert_eq!(report.hits, HitCounts { root: 1, health: 2, sum: 3, echo: 2, parallel: 0 });
    assert!(report.uptime_seconds < 60);
    assert_eq!(app.counters().load(Endpoint::Sum), 3);
}

#[test]
fn parallel_handler_plans_and_collects() {
    let app = AppState::new();
    let (tasks, mut fan_in) = app.parallel(Some(3));
    assert_eq!(tasks.len(), 3);
    for task in tasks.iter().rev() {
        fan_in.join(TaskOutcome::Completed(task.run()));
    }
    let results = fan_in.finish().unwrap();
    let mut indices: Vec<usize> = results.iter().map(|r| r.index).collect();
    assert_eq!(indices, vec![2, 1, 0]);
    indices.sort();
    assert_eq!(indices, vec![0, 1, 2]);
    assert_eq!(DEFAULT_TASKS, 5);
    assert_eq!(app.parallel(None).0.len(), 5);
    assert_eq!(app.parallel(Some(0)).0.len(), 0);
    assert_eq!(app.parallel(Some(100)).0.len(), 32);
    assert_eq!(app.metrics().hits.parallel, 4);
}

#[test]
fn metrics_report_holds_what_it_is_given() {
    let hits = HitCounts { root: 1, health: 2, sum: 3, echo: 4, parallel: 5 };
    let report = MetricsReport::new(42, hits);
    assert_eq!(report.uptime_seconds, 42);
    assert_eq!(report.hits, hits);
}

#[test]
fn uptime_starts_at_zero_seconds() {
    let uptime = ServiceUptime::start();
    assert!(uptime.elapsed_seconds() < 60);
}

#[test]
fn hit_counts_hold_the_readings_they_are_made_from() {
    let hits = HitCounts::from_readings(1, 2, 3, 4, 5);
    assert_eq!(hits, HitCounts { root: 1, health: 2, sum: 3, echo: 4, parallel: 5 });
    assert_eq!(hits.get(Endpoint::Root), 1);
    assert_eq!(hits.get(Endpoint::Health), 2);
    assert_eq!(hits.get(Endpoint::Sum), 3);
    assert_eq!(hits.get(Endpoint::Echo), 4);
    assert_eq!(hits.get(Endpoint::Parallel), 5);
}

#[test]
fn each_endpoint_counts_on_its_own_cell() {
    let counters = RequestCounters::new();
    let mut expected: u64 = 0;
    for endpoint in Endpoint::all() {
        expected += 1;
        for _ in 0..expected {
            counters.increment(endpoint);
        }
    }
    assert_eq!(counters.load(Endpoint::Root), 1);
    assert_eq!(counters.load(Endpoint::Health), 2);
    assert_eq!(counters.load(Endpoint::Sum), 3);
    assert_eq!(counters.load(Endpoint::Echo), 4);
    assert_eq!(counters.load(Endpoint::Parallel), 5);
    assert_eq!(counters.snapshot(), HitCounts::from_readings(1, 2, 3, 4, 5));
}
