use keyboard_gen::{AppState, Keyboard};

#[test]
fn new_job_is_running_with_none_completed() {
    match AppState::new_job(4) {
        AppState::Running { batch_size, completed } => {
            assert_eq!(batch_size, 4);
            assert_eq!(completed, 0);
        }
        _ => panic!("a new job runs"),
    }
}

#[test]
fn add_one_completed_counts_groups() {
    let mut s = AppState::new_job(3);
    s.add_one_completed();
    s.add_one_completed();
    match s {
        AppState::Running { batch_size, completed } => {
            assert_eq!(batch_size, 3);
            assert_eq!(completed, 2);
        }
        _ => panic!("the job still runs"),
    }
}

#[test]
fn add_one_completed_leaves_other_states() {
    let mut s = AppState::Init;
    s.add_one_completed();
    assert!(matches!(s, AppState::Init));
    let mut done = AppState::Completed(vec![(3, Keyboard::new_47())]);
    done.add_one_completed();
    match done {
        AppState::Completed(v) => assert_eq!(v.len(), 1),
        _ => panic!("a completed job stays completed"),
    }
}
