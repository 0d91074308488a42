use harraw::benchmark::{hrw_execute, hrw_join, hrw_run_iteration, hrw_threads, hrw_threads_for, Benchmark, HarrawRun};
use harraw::checker::{hrw_compare, hrw_flat_position};
use harraw::config::HarrawConfig;
use harraw::service::delay::HarrawDelay;
use harraw::service::HarrawStep;
use harraw::value::Value;

fn config(concurrency: i64, iterations: i64, rampup: i64) -> HarrawConfig {
    HarrawConfig {
        base: "http://localhost:9000".to_string(),
        concurrency,
        iterations,
        relaxed_interpolations: false,
        no_check_certificate: false,
        rampup,
        quiet: false,
        nanosec: false,
        timeout: 10,
        verbose: false,
    }
}

#[test]
fn a_pass_begins_with_its_seeds() {
    let (seconds, context) = hrw_run_iteration(&config(2, 10, 0), 3);
    assert_eq!(seconds, 0);
    assert_eq!(context.entries.len(), 2);
    assert_eq!(context.get("iterations"), Some(&Value::Text("3".to_string())));
    assert_eq!(context.get("base"), Some(&Value::Text("http://localhost:9000".to_string())));
    let (_, first) = hrw_run_iteration(&config(2, 0, 0), 0);
    assert_eq!(first.get("iterations"), Some(&Value::Text("0".to_string())));
}

#[test]
fn the_start_of_each_pass_is_spread_over_the_ramp_up() {
    let delays: Vec<u64> = (0..10).map(|i| hrw_run_iteration(&config(2, 10, 30), i).0).collect();
    assert_eq!(delays, vec![0, 3, 6, 9, 12, 15, 18, 21, 24, 27]);
    assert_eq!(hrw_run_iteration(&config(2, 4, 10), 3).0, 6);
    assert_eq!(hrw_run_iteration(&config(2, 20, 10), 19).0, 0);
    assert_eq!(hrw_run_iteration(&config(2, 1, i64::MAX), 1).0, i64::MAX as u64);
    assert_eq!(hrw_run_iteration(&config(2, 7, 0), 5).0, 0);
}

#[test]
fn a_run_is_decided_by_the_plan_and_the_mode() {
    let empty = Benchmark::new();
    let plan: Benchmark = vec![HarrawStep::Delay(HarrawDelay { name: "d".to_string(), seconds: 1 })];
    let settings = config(3, 12, 0);
    assert_eq!(hrw_execute(&settings, false, &empty), HarrawRun::Empty);
    assert_eq!(hrw_execute(&settings, true, &empty), HarrawRun::Empty);
    assert_eq!(hrw_execute(&settings, true, &plan), HarrawRun::Report);
    assert_eq!(hrw_execute(&settings, false, &plan), HarrawRun::Iterate { iterations: 12, concurrency: 3 });
}

#[test]
fn worker_threads_are_bounded_by_the_concurrency() {
    assert_eq!(hrw_threads_for(8, 3), 3);
    assert_eq!(hrw_threads_for(8, 8), 8);
    assert_eq!(hrw_threads_for(2, 100), 2);
    assert_eq!(hrw_threads_for(2, 0), 0);
    assert_eq!(hrw_threads_for(2, -1), 2);
    assert_eq!(hrw_threads(&config(1, 1, 0)), 1);
    assert_eq!(hrw_threads(&config(0, 1, 0)), 0);
    let many = hrw_threads(&config(i64::MAX, 1, 0));
    assert!(many >= 1);
    assert_eq!(hrw_threads(&config(i64::MAX, 1, 0)), many);
}

#[test]
fn texts_are_joined() {
    let list = |items: &[&str]| -> Vec<String> { items.iter().map(|s| s.to_string()).collect() };
    assert_eq!(hrw_join(&list(&["a", "b", "c"]), ", "), "a, b, c");
    assert_eq!(hrw_join(&list(&["a", "b", "c"]), ""), "abc");
    assert_eq!(hrw_join(&list(&[]), ","), "");
    assert_eq!(hrw_join(&list(&["only"]), ","), "only");
    assert_eq!(hrw_join(&list(&["", "", "a", "", "b"]), ","), "a,,b");
}

#[test]
fn the_verdict_counts_the_flagged_reports() {
    assert_eq!(hrw_compare(&vec![]), Ok(()));
    assert_eq!(hrw_compare(&vec![false, false, false]), Ok(()));
    assert_eq!(hrw_compare(&vec![false, true, false]), Err(1));
    assert_eq!(hrw_compare(&vec![true; 5]), Err(5));
    let durations = [12.5f64, 3.0, 7.25];
    let flags = |live: &[f64], threshold: f64| -> Vec<bool> {
        live.iter().zip(durations.iter()).map(|(l, r)| l - r > threshold).collect()
    };
    assert_eq!(hrw_compare(&flags(&durations, 0.0)), Ok(()));
    assert_eq!(hrw_compare(&flags(&[12.5, 3.5, 7.25], 0.0)), Err(1));
    assert_eq!(hrw_compare(&flags(&[12.5, 3.5, 7.25], 0.5)), Ok(()));
    assert_eq!(hrw_compare(&flags(&[13.5, 3.6, 7.0], 0.5)), Err(2));
}

#[test]
fn reports_are_matched_by_their_position_in_the_whole_run() {
    let lengths = vec![3, 0, 2, 4];
    assert_eq!(hrw_flat_position(&lengths, 0, 0), Some(0));
    assert_eq!(hrw_flat_position(&lengths, 0, 2), Some(2));
    assert_eq!(hrw_flat_position(&lengths, 1, 0), Some(3));
    assert_eq!(hrw_flat_position(&lengths, 2, 1), Some(4));
    assert_eq!(hrw_flat_position(&lengths, 3, 3), Some(8));
    assert_eq!(hrw_flat_position(&lengths, 4, 0), Some(9));
    assert_eq!(hrw_flat_position(&vec![usize::MAX, 1], 2, 0), None);
    assert_eq!(hrw_flat_position(&vec![usize::MAX, 1], 1, 0), Some(usize::MAX));
}
