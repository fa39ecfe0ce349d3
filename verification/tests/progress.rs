use cutlist_optimizer::cli::progress::{ProgressReporter, Spinner};
use cutlist_optimizer::engine::progress::{duration_summary, ProgressTracker, TaskInfo, TaskStatus};

#[test]
fn test_task_info_creation() {
    let task = TaskInfo::new("task1".to_string(), "Test Task".to_string());
    assert_eq!(task.id, "task1");
    assert_eq!(task.name, "Test Task");
    assert_eq!(task.status, TaskStatus::Queued);
    assert_eq!(task.progress_percentage, 0);
}

#[test]
fn test_progress_tracker_basic_operations() {
    let mut tracker = ProgressTracker::new(100);

    let task = TaskInfo::new("task1".to_string(), "Test Task".to_string());
    tracker.add_task(task);

    assert_eq!(tracker.get_total_task_count(), 1);
    assert_eq!(tracker.get_active_task_count(), 0);

    tracker.update_task_status("task1", TaskStatus::Running);
    assert_eq!(tracker.get_active_task_count(), 1);

    tracker.update_task_progress("task1", 50);
    let task_info = tracker.get_task("task1").unwrap();
    assert_eq!(task_info.progress_percentage, 50);

    tracker.update_task_status("task1", TaskStatus::Completed);
    assert_eq!(tracker.get_completed_task_count(), 1);
    assert_eq!(tracker.get_active_task_count(), 0);
}

#[test]
fn reporter_reports_at_most_once_per_interval() {
    let mut reporter = ProgressReporter::with_total("Cutting".to_string(), 10);
    let _ = reporter.set_step(3);
    let far = u64::MAX / 2;
    let line = reporter.update_at(far).unwrap();
    assert_eq!(line.current_step, 3);
    assert_eq!(line.total_steps, Some(10));
    assert_eq!(line.message, "Cutting");
    assert!(reporter.update_at(far + 50).is_none());
    assert!(reporter.update_at(far + 100).is_some());
    let done = reporter.finish();
    assert_eq!(done.current_step, 3);
}

#[test]
fn spinner_cycles_through_its_frames() {
    let mut spinner = Spinner::new("Working".to_string());
    assert_eq!(spinner.tick(), "⠋ Working");
    assert_eq!(spinner.tick(), "⠙ Working");
    for _ in 0..8 {
        spinner.tick();
    }
    assert_eq!(spinner.tick(), "⠋ Working");
    assert_eq!(spinner.finish("Done".to_string()), "\r✓ Done");
}

#[test]
fn tracker_adds_up_progress_and_durations() {
    let mut tracker = ProgressTracker::new(1000);
    let mut a = TaskInfo::new("a".to_string(), "A".to_string());
    a.progress_percentage = 40;
    a.status = TaskStatus::Completed;
    a.start_time = Some(1000);
    a.end_time = Some(1500);
    let mut b = TaskInfo::new("b".to_string(), "B".to_string());
    b.progress_percentage = 100;
    b.status = TaskStatus::Completed;
    b.start_time = Some(2000);
    b.end_time = Some(2100);
    let mut c = TaskInfo::new("c".to_string(), "C".to_string());
    c.progress_percentage = 25;
    c.status = TaskStatus::Completed;
    tracker.add_task(a);
    tracker.add_task(b);
    tracker.add_task(c);
    assert_eq!(tracker.get_total_progress(), 165);
    let durations = tracker.get_completed_durations();
    assert_eq!(durations, vec![500, 100]);
    assert_eq!(duration_summary(&durations), Some((600, 100, 500)));
    assert_eq!(duration_summary(&Vec::new()), None);
}

#[test]
fn reports_are_due_after_the_interval() {
    let mut tracker = ProgressTracker::new(1000);
    tracker.mark_updated_at(5000);
    assert_eq!(tracker.last_update, 5000);
    assert!(!tracker.should_update_at(5999));
    assert!(tracker.should_update_at(6000));
    assert!(!tracker.should_update_at(4000));
    tracker.mark_updated();
    assert!(tracker.active);
}
