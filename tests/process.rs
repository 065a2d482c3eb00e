use rustcore::process::ProcessManager;
use rustcore::scheduler::{select_hrrn, MultiFeedbackQueue, Process, ProcessState};

#[test]
fn test_process_creation() {
    let mut manager = ProcessManager::new();

    let pid1 = manager.create_process(100);
    let pid2 = manager.create_process(200);

    assert_eq!(pid1, 1);
    assert_eq!(pid2, 2);

    assert_eq!(manager.get_process_state(pid1), Some(ProcessState::Ready));
    assert_eq!(manager.get_process_state(pid2), Some(ProcessState::Ready));
}

#[test]
fn test_process_termination() {
    let mut manager = ProcessManager::new();

    let pid = manager.create_process(100);
    manager.terminate_process(pid);

    assert_eq!(manager.get_process_state(pid), Some(ProcessState::Terminated));
}

#[test]
fn test_mfq_scheduling() {
    let mut scheduler = MultiFeedbackQueue::new();

    let p1 = Process::new(1, 150, 0);
    let p2 = Process::new(2, 300, 0);
    let p3 = Process::new(3, 500, 0);

    scheduler.add_process(p1);
    scheduler.add_process(p2);
    scheduler.add_process(p3);

    let process = scheduler.schedule();
    assert!(process.is_some());
    assert_eq!(process.unwrap(), 1);

    scheduler.tick();
    scheduler.tick();

    scheduler.complete_process(1);
    let process = scheduler.schedule();
    assert!(process.is_some());
    assert_eq!(process.unwrap(), 2);
}

#[test]
fn three_bursts_demote_then_run_to_completion() {
    let mut manager = ProcessManager::new();
    assert_eq!(manager.create_process(150), 1);
    assert_eq!(manager.create_process(300), 2);
    assert_eq!(manager.create_process(500), 3);
    assert_eq!(manager.schedule_next(), Some(1));
    assert_eq!(manager.get_process_state(1), Some(ProcessState::Running));
    assert_eq!(manager.schedule_next(), Some(1));
    assert_eq!(manager.get_process_state(1), Some(ProcessState::Running));
    assert_eq!(manager.get_process_state(2), Some(ProcessState::Ready));
}

#[test]
fn completion_twice_stays_terminated() {
    let mut manager = ProcessManager::new();
    let pid = manager.create_process(100);
    manager.terminate_process(pid);
    assert_eq!(manager.get_process_state(pid), Some(ProcessState::Terminated));
    manager.terminate_process(pid);
    assert_eq!(manager.get_process_state(pid), Some(ProcessState::Terminated));
    assert_eq!(manager.schedule_next(), None);
}

#[test]
fn unknown_pid_has_no_state_and_completion_ignores_it() {
    let mut scheduler = MultiFeedbackQueue::new();
    scheduler.complete_process(7);
    assert_eq!(scheduler.get_process_state(7), None);
    assert_eq!(scheduler.schedule(), None);
}

#[test]
fn levels_never_decrease() {
    let mut scheduler = MultiFeedbackQueue::new();
    scheduler.add_process(Process::new(1, 450, 0));
    scheduler.add_process(Process::new(2, 80, 0));
    let mut last = [0usize, 0usize];
    for _ in 0..6 {
        scheduler.schedule();
        scheduler.tick();
        for (i, pid) in [1u64, 2u64].iter().enumerate() {
            let level = scheduler.process_level(*pid).unwrap();
            assert!(level >= last[i]);
            last[i] = level;
        }
    }
    assert_eq!(scheduler.process_level(1), Some(1));
    assert_eq!(scheduler.process_level(2), Some(0));
}

#[test]
fn level_one_charges_quantum_until_it_fits() {
    let mut scheduler = MultiFeedbackQueue::new();
    scheduler.add_process(Process::new(1, 450, 0));
    // 450 > 100: charged 100 and moved to level 1, where 350 > 200 is charged too.
    assert_eq!(scheduler.schedule(), Some(1));
    assert_eq!(scheduler.get_process_state(1), Some(ProcessState::Ready));
    // 150 <= 200: runs to completion.
    assert_eq!(scheduler.schedule(), Some(1));
    assert_eq!(scheduler.get_process_state(1), Some(ProcessState::Running));
}

#[test]
fn tick_counts_waiting_of_ready_processes_only() {
    let mut scheduler = MultiFeedbackQueue::new();
    scheduler.add_process(Process::new(1, 50, 0));
    scheduler.add_process(Process::new(2, 50, 0));
    assert_eq!(scheduler.schedule(), Some(1));
    scheduler.tick();
    scheduler.tick();
    assert_eq!(scheduler.current_time(), 2);
    assert_eq!(scheduler.get_process_state(1), Some(ProcessState::Running));
    assert_eq!(scheduler.get_process_state(2), Some(ProcessState::Ready));
}

fn waiting(pid: u64, burst: u64, waited: u64) -> Process {
    let mut p = Process::new(pid, burst, 0);
    p.waiting_time = waited;
    p
}

#[test]
fn hrrn_ties_go_to_the_earlier_process() {
    // Both have response ratio (100 + 100) / 100 = (200 + 200) / 200 = 2.
    let queue = vec![waiting(1, 100, 50), waiting(2, 100, 100), waiting(3, 200, 200)];
    assert_eq!(select_hrrn(&queue), 1);
}

#[test]
fn hrrn_picks_the_highest_ratio() {
    // Ratios: 1.5, 2, 3.
    let queue = vec![waiting(1, 100, 50), waiting(2, 200, 200), waiting(3, 50, 100)];
    assert_eq!(select_hrrn(&queue), 2);
    let single = vec![waiting(9, 10, 0)];
    assert_eq!(select_hrrn(&single), 0);
}

#[test]
fn new_process_fields() {
    let p = Process::new(4, 250, 17);
    assert_eq!(p.pid, 4);
    assert_eq!(p.state, ProcessState::Ready);
    assert_eq!(p.remaining_time, 250);
    assert_eq!(p.time_quantum, 100);
    assert_eq!(p.arrival_time, 17);
    assert_eq!(p.waiting_time, 0);
}
