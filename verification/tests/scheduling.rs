use field_extract::results::ResultSet;
use field_extract::run::Run;
use field_extract::scheduler::{Action, Scheduler, TaskState};
use field_extract::worker::{extract_parse, FileWorker, InputFile};

fn files(sizes: &[u64]) -> Vec<InputFile> {
    sizes
        .iter()
        .enumerate()
        .map(|(i, s)| InputFile { path: format!("f{}.zst", i), size: *s })
        .collect()
}

fn set_of(values: &[&str]) -> ResultSet {
    let mut s = ResultSet::new();
    for v in values {
        s.insert(v);
    }
    s
}

fn sorted(s: &ResultSet) -> Vec<String> {
    let mut v = s.values();
    v.sort();
    v
}

#[test]
fn new_scheduler_is_idle() {
    let s = Scheduler::new(2, 3);
    assert_eq!(s.total(), 3);
    assert_eq!(s.running_count(), 0);
    assert_eq!(s.state(0), TaskState::Idle);
    assert_eq!(s.state(2), TaskState::Idle);
    assert_eq!(s.next_action(), Action::Start(0));
    assert!(!s.is_done());
}

#[test]
fn empty_worklist_is_done_at_once() {
    let s = Scheduler::new(2, 0);
    assert_eq!(s.next_action(), Action::Finished);
    assert!(s.is_done());
}

#[test]
fn cap_two_with_five_files_never_runs_three() {
    let mut s = Scheduler::new(2, 5);
    let mut running: Vec<usize> = Vec::new();
    let mut started: Vec<usize> = Vec::new();
    let mut steps = 0;
    loop {
        assert!(s.running_count() <= 2);
        assert_eq!(s.running_count(), running.len());
        match s.next_action() {
            Action::Start(i) => {
                assert_eq!(s.start_next(), Some(i));
                assert_eq!(s.state(i), TaskState::Running);
                running.push(i);
                started.push(i);
            }
            Action::Wait => {
                assert_eq!(s.start_next(), None);
                let i = running.remove(0);
                assert!(s.complete(i));
                assert_eq!(s.state(i), TaskState::Completed);
            }
            Action::Finished => break,
        }
        steps += 1;
        assert!(steps < 100);
    }
    assert_eq!(started, vec![0, 1, 2, 3, 4]);
    assert!(s.is_done());
    assert_eq!(s.running_count(), 0);
}

#[test]
fn full_scheduler_waits() {
    let mut s = Scheduler::new(2, 5);
    assert_eq!(s.start_next(), Some(0));
    assert_eq!(s.start_next(), Some(1));
    assert_eq!(s.next_action(), Action::Wait);
    assert_eq!(s.start_next(), None);
    assert_eq!(s.running_count(), 2);
    assert_eq!(s.state(2), TaskState::Idle);
    assert!(s.complete(0));
    assert_eq!(s.next_action(), Action::Start(2));
}

#[test]
fn only_running_tasks_complete() {
    let mut s = Scheduler::new(3, 2);
    assert!(!s.complete(0));
    assert!(!s.complete(7));
    assert_eq!(s.start_next(), Some(0));
    assert!(s.complete(0));
    assert!(!s.complete(0));
    assert_eq!(s.running_count(), 0);
    assert_eq!(s.state(0), TaskState::Completed);
    assert_eq!(s.state(1), TaskState::Idle);
    assert!(!s.is_done());
}

#[test]
fn cap_zero_never_starts() {
    let mut s = Scheduler::new(0, 1);
    assert_eq!(s.next_action(), Action::Wait);
    assert_eq!(s.start_next(), None);
}

#[test]
fn waits_until_last_task_completes() {
    let mut s = Scheduler::new(4, 2);
    assert_eq!(s.start_next(), Some(0));
    assert_eq!(s.start_next(), Some(1));
    assert_eq!(s.start_next(), None);
    assert_eq!(s.next_action(), Action::Wait);
    assert!(s.complete(1));
    assert_eq!(s.next_action(), Action::Wait);
    assert!(!s.is_done());
    assert!(s.complete(0));
    assert_eq!(s.next_action(), Action::Finished);
    assert!(s.is_done());
}

#[test]
fn two_files_with_a_malformed_line() {
    let a = b"{\"author\":\"alice\"}\n{\"author\":\"bob\"}\n";
    let b = b"{\"author\":\"alice\"}\n{\"author\":\n";
    for use_json in [true, false] {
        let worklist = files(&[a.len() as u64, b.len() as u64]);
        let mut run = Run::new(8, &worklist);
        assert_eq!(run.start_next(), Some(0));
        assert_eq!(run.start_next(), Some(1));
        assert!(run.complete(1, extract_parse(b, use_json)));
        assert!(run.complete(0, extract_parse(a, use_json)));
        assert!(run.is_done());
        assert_eq!(run.progress(), (a.len() + b.len()) as u64);
        assert_eq!(sorted(&run.into_result()), vec!["alice", "bob"]);
    }
}

#[test]
fn failed_file_does_not_stop_the_others() {
    let worklist = files(&[100, 200, 300]);
    let mut run = Run::new(2, &worklist);
    assert_eq!(run.start_next(), Some(0));
    assert_eq!(run.start_next(), Some(1));
    let failed = FileWorker::failed(InputFile { path: "f0.zst".to_string(), size: 100 });
    assert!(run.complete(0, failed.values));
    assert_eq!(run.progress(), 100);
    assert_eq!(run.start_next(), Some(2));
    assert!(run.complete(2, set_of(&["carol"])));
    assert!(run.complete(1, set_of(&["bob"])));
    assert!(run.is_done());
    assert_eq!(run.progress(), 600);
    assert_eq!(sorted(&run.into_result()), vec!["bob", "carol"]);
}

#[test]
fn a_worker_is_counted_once() {
    let worklist = files(&[10, 20]);
    let mut run = Run::new(2, &worklist);
    assert!(!run.complete(0, set_of(&["early"])));
    assert_eq!(run.start_next(), Some(0));
    assert!(run.complete(0, set_of(&["alice"])));
    assert!(!run.complete(0, set_of(&["again"])));
    assert!(!run.complete(9, set_of(&["nobody"])));
    assert_eq!(run.progress(), 10);
    assert_eq!(run.running_count(), 0);
    assert_eq!(run.next_action(), Action::Start(1));
    assert_eq!(run.into_result().values(), vec!["alice".to_string()]);
}

#[test]
fn progress_is_sum_of_completed_sizes_and_never_falls() {
    let sizes = [5u64, 0, 17, 1000, 3];
    let worklist = files(&sizes);
    let mut run = Run::new(2, &worklist);
    let mut running: Vec<usize> = Vec::new();
    let mut credited = 0u64;
    let mut last = 0u64;
    while !run.is_done() {
        assert!(run.running_count() <= 2);
        match run.next_action() {
            Action::Start(i) => {
                assert_eq!(run.start_next(), Some(i));
                running.push(i);
            }
            Action::Wait => {
                let i = running.pop().unwrap();
                assert!(run.complete(i, ResultSet::new()));
                credited += sizes[i];
            }
            Action::Finished => unreachable!(),
        }
        assert!(run.progress() >= last);
        assert_eq!(run.progress(), credited);
        last = run.progress();
    }
    assert_eq!(run.progress(), 1025);
}

#[test]
fn progress_of_a_run_is_held_at_the_largest_value() {
    let worklist = files(&[u64::MAX, 7]);
    let mut run = Run::new(2, &worklist);
    run.start_next();
    run.start_next();
    assert!(run.complete(1, ResultSet::new()));
    assert_eq!(run.progress(), 7);
    assert!(run.complete(0, ResultSet::new()));
    assert_eq!(run.progress(), u64::MAX);
}

#[test]
fn completion_order_does_not_change_the_result() {
    let locals: [&[&str]; 3] = [&["alice", "bob"], &["bob", "carol"], &["dave"]];
    let mut results: Vec<Vec<String>> = Vec::new();
    for order in [[0usize, 1, 2], [2, 1, 0], [1, 2, 0]] {
        let worklist = files(&[1, 2, 3]);
        let mut run = Run::new(3, &worklist);
        run.start_next();
        run.start_next();
        run.start_next();
        for i in order {
            assert!(run.complete(i, set_of(locals[i])));
        }
        assert!(run.is_done());
        results.push(sorted(&run.into_result()));
    }
    assert_eq!(results[0], vec!["alice", "bob", "carol", "dave"]);
    assert_eq!(results[0], results[1]);
    assert_eq!(results[0], results[2]);
}
