use cutlist_optimizer::model::request::{ClientInfo, Edge, Panel, PerformanceThresholds};
use cutlist_optimizer::model::response::{CalculationSubmissionResult, PanelPosition, Stats, StatusCode};

#[test]
fn test_edge_functionality() {
    let edge = Edge::all_sides("PVC".to_string());
    assert!(edge.has_any_edge());

    let empty_edge = Edge::new();
    assert!(!empty_edge.has_any_edge());
}

#[test]
fn test_client_info_metadata() {
    let mut client_info = ClientInfo::new("test_client".to_string());
    client_info.add_metadata("app_version".to_string(), "1.0.0".to_string());

    assert_eq!(client_info.get_metadata("app_version"), Some(&"1.0.0".to_string()));
    assert_eq!(client_info.get_metadata("nonexistent"), None);
}

#[test]
fn metadata_keeps_the_last_value_per_key() {
    let mut client_info = ClientInfo::with_details("c".to_string(), Some("name".to_string()), None, None);
    client_info.add_metadata("k".to_string(), "1".to_string());
    client_info.add_metadata("j".to_string(), "2".to_string());
    client_info.add_metadata("k".to_string(), "3".to_string());
    assert_eq!(client_info.get_metadata("k"), Some(&"3".to_string()));
    assert_eq!(client_info.get_metadata("j"), Some(&"2".to_string()));
    assert_eq!(client_info.metadata.len(), 2);
}

#[test]
fn panel_defaults() {
    let panel = Panel::new(1, "100.5".to_string(), "200.0".to_string(), 5, None);
    assert!(panel.enabled);
    assert_eq!(panel.material, "DEFAULT_MATERIAL");
    assert_eq!(panel.orientation, 0);
    let own = Panel::new(2, "1".to_string(), "2".to_string(), 1, Some("Oak".to_string()));
    assert_eq!(own.material, "Oak");
    let limits = PerformanceThresholds::default();
    assert_eq!(limits.max_simultaneous_threads, 5);
    assert_eq!(limits.thread_check_interval, 1000);
    assert_eq!(limits.max_simultaneous_tasks, 2);
}

#[test]
fn test_panel_position() {
    let pos1 = PanelPosition::new(0, 0, 100, 200, false);
    let pos2 = PanelPosition::new(50, 50, 100, 200, false);
    let pos3 = PanelPosition::new(200, 200, 100, 200, false);

    assert_eq!(pos1.right(), 100);
    assert_eq!(pos1.bottom(), 200);
    assert_eq!(pos1.area(), 20000);

    assert!(pos1.intersects(&pos2));
    assert!(!pos1.intersects(&pos3));
}

#[test]
fn touching_positions_do_not_intersect() {
    let a = PanelPosition::new(0, 0, 100, 100, false);
    let b = PanelPosition::new(100, 0, 100, 100, false);
    assert!(!a.intersects(&b));
    assert!(!b.intersects(&a));
}

#[test]
fn test_submission_result() {
    let success = CalculationSubmissionResult::success("task123".to_string());
    assert!(success.is_success());
    assert_eq!(success.task_id, Some("task123".to_string()));

    let error = CalculationSubmissionResult::error(StatusCode::InvalidTiles, Some("Invalid input".to_string()));
    assert!(!error.is_success());
    assert_eq!(error.error_message, Some("Invalid input".to_string()));
}

#[test]
fn test_status_code() {
    assert_eq!(StatusCode::Success.value(), 0);
    assert_eq!(StatusCode::InvalidTiles.value(), 1);
    assert_eq!(StatusCode::Success.to_string(), "0");

    assert_eq!(StatusCode::from_value(0), Some(StatusCode::Success));
    assert_eq!(StatusCode::from_value(999), None);

    assert_eq!(StatusCode::Success.description(), "Успешно");
}

#[test]
fn status_codes_read_back() {
    for v in 0..7 {
        let code = StatusCode::from_value(v).unwrap();
        assert_eq!(code.get_value(), v);
        assert_eq!(code.get_string_value(), v.to_string());
    }
    assert_eq!(StatusCode::from_value(-1), None);
    assert_eq!(StatusCode::TooManyStockPanels.description(), "Слишком много складских панелей");
}

#[test]
fn test_stats_summary() {
    let mut stats = Stats::new();
    stats.nbr_running_tasks = 5;
    stats.nbr_finished_tasks = 10;
    stats.nbr_running_threads = 3;

    assert_eq!(stats.total_tasks(), 15);
    assert!(stats.format_summary().contains("5 выполняются"));
}

#[test]
fn stats_summary_text() {
    let mut stats = Stats::new();
    stats.nbr_idle_tasks = 2;
    stats.nbr_running_tasks = 5;
    stats.nbr_finished_tasks = 10;
    stats.nbr_running_threads = 3;
    stats.nbr_queued_threads = -1;
    stats.nbr_finished_threads = 7;
    assert_eq!(
        stats.format_summary(),
        "Задачи: 2 ожидают, 5 выполняются, 10 завершены | Потоки: 3 выполняются, -1 в очереди"
    );
    assert_eq!(stats.total_threads(), 9);
}

#[test]
fn test_status_code_values() {
    assert_eq!(StatusCode::Success.get_value(), 0);
    assert_eq!(StatusCode::InvalidTiles.get_value(), 1);
    assert_eq!(StatusCode::TaskAlreadyRunning.get_value(), 3);
}

#[test]
fn test_calculation_submission_result() {
    let success_result = CalculationSubmissionResult::success("task123".to_string());
    assert!(success_result.is_success());
    assert_eq!(success_result.task_id, Some("task123".to_string()));

    let error_result = CalculationSubmissionResult::error(StatusCode::InvalidTiles, Some("Invalid tiles".to_string()));
    assert!(!error_result.is_success());
    assert_eq!(error_result.task_id, None);
}
