use gxr::probe::{PingResult, Status};
use gxr::report::{report_directory, report_file_name, status_label, summarize};
use gxr::schedule::{Dispatch, Scheduler};

#[test]
fn addresses_are_handed_out_in_order_under_the_ceiling() {
    let mut s = Scheduler::new(5, 2);
    assert_eq!(s.next(), Dispatch::Start(0));
    assert_eq!(s.next(), Dispatch::Start(1));
    assert_eq!(s.running(), 2);
    assert_eq!(s.next(), Dispatch::Wait);
    assert_eq!(s.next(), Dispatch::Wait);
    s.record(PingResult::failure("b".to_string()));
    assert_eq!(s.running(), 1);
    assert_eq!(s.next(), Dispatch::Start(2));
    assert_eq!(s.next(), Dispatch::Wait);
    s.record(PingResult::success("a".to_string(), None));
    s.record(PingResult::success("c".to_string(), None));
    assert_eq!(s.next(), Dispatch::Start(3));
    assert_eq!(s.next(), Dispatch::Start(4));
    assert_eq!(s.next(), Dispatch::Wait);
    s.record(PingResult::failure("e".to_string()));
    s.record(PingResult::failure("d".to_string()));
    assert_eq!(s.next(), Dispatch::Finished);
    assert_eq!(s.next(), Dispatch::Finished);
    let results = s.into_results();
    let order: Vec<&str> = results.iter().map(|r| r.ip.as_str()).collect();
    assert_eq!(order, vec!["b", "a", "c", "e", "d"]);
}

#[test]
fn in_flight_never_exceeds_the_ceiling() {
    for limit in 1..8usize {
        let total = 50usize;
        let mut s = Scheduler::new(total, limit);
        let mut running: Vec<usize> = Vec::new();
        let mut peak = 0usize;
        let mut seed: u32 = 12345 + limit as u32;
        loop {
            match s.next() {
                Dispatch::Start(i) => running.push(i),
                Dispatch::Wait => {
                    seed = seed.wrapping_mul(1103515245).wrapping_add(12345);
                    let pick = (seed >> 16) as usize % running.len();
                    let i = running.swap_remove(pick);
                    s.record(PingResult::failure(format!("{}", i)));
                }
                Dispatch::Finished => break,
            }
            assert_eq!(s.running(), running.len());
            assert!(running.len() <= limit);
            peak = peak.max(running.len());
        }
        assert_eq!(peak, limit);
        assert_eq!(s.into_results().len(), total);
    }
}

#[test]
fn counts_add_up_to_the_address_list() {
    let mut s = Scheduler::new(4, 3);
    let mut started = Vec::new();
    loop {
        match s.next() {
            Dispatch::Start(i) => started.push(i),
            Dispatch::Wait => {
                let i = started.remove(0);
                if i % 2 == 0 {
                    s.record(PingResult::success(format!("10.0.0.{}", i), None));
                } else {
                    s.record(PingResult::failure(format!("10.0.0.{}", i)));
                }
            }
            Dispatch::Finished => break,
        }
    }
    let results = s.into_results();
    let summary = summarize(&results, 4);
    assert_eq!(summary.total, 4);
    assert_eq!(summary.success_count, 2);
    assert_eq!(summary.failure_count, 2);
    assert_eq!(summary.success_count + summary.failure_count, 4);
}

#[test]
fn lost_probe_leaves_its_result_out_and_the_run_goes_on() {
    let mut s = Scheduler::new(3, 1);
    assert_eq!(s.next(), Dispatch::Start(0));
    s.record(PingResult::success("a".to_string(), None));
    assert_eq!(s.next(), Dispatch::Start(1));
    s.abandon();
    assert_eq!(s.next(), Dispatch::Start(2));
    s.record(PingResult::failure("c".to_string()));
    assert_eq!(s.next(), Dispatch::Finished);
    let results = s.into_results();
    assert_eq!(results.len(), 2);
    let summary = summarize(&results, 3);
    assert_eq!(summary.success_count, 1);
    assert_eq!(summary.failure_count, 2);
}

#[test]
fn empty_list_is_finished_at_once() {
    let mut s = Scheduler::new(0, 4);
    assert_eq!(s.next(), Dispatch::Finished);
    assert!(s.into_results().is_empty());
    let summary = summarize(&Vec::new(), 0);
    assert_eq!((summary.total, summary.success_count, summary.failure_count), (0, 0, 0));
}

#[test]
fn ceiling_of_zero_gives_no_scheduler() {
    assert!(Scheduler::with_ceiling(3, 0).is_none());
    let mut s = Scheduler::with_ceiling(3, 1).unwrap();
    assert_eq!(s.next(), Dispatch::Start(0));
    assert_eq!(s.next(), Dispatch::Wait);
}

#[test]
fn default_parameters() {
    let args = gxr::config::PingArgs::new("10.0.0.1".to_string());
    assert_eq!(args.target, "10.0.0.1");
    assert_eq!((args.timeout, args.concurrency, args.count), (2, 100, 3));
    assert!(!args.echo);
    assert!(!args.output);
}

#[test]
fn report_names() {
    assert_eq!(report_directory("ping"), "output/ping");
    assert_eq!(report_file_name("ping", "20240131_235959"), "ping_20240131_235959.xlsx");
    assert_eq!(status_label(Status::Success), "成功");
    assert_eq!(status_label(Status::Failure), "失败");
}
