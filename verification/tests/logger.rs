use cutlist_optimizer::engine::logger::{CutListLogger, CutListLoggerImpl, LogLevel};

#[test]
fn test_logger_basic_functionality() {
    let mut logger = CutListLoggerImpl::new();

    logger.info("Test message");
    logger.debug("Debug message");
    logger.warning("Warning message");
    logger.error("Error message");

    let logs = logger.get_logs();
    assert_eq!(logs.len(), 4);

    assert_eq!(logs[0].level, LogLevel::Info);
    assert_eq!(logs[0].message, "Test message");

    assert_eq!(logs[1].level, LogLevel::Debug);
    assert_eq!(logs[1].message, "Debug message");

    assert_eq!(logs[2].level, LogLevel::Warning);
    assert_eq!(logs[2].message, "Warning message");

    assert_eq!(logs[3].level, LogLevel::Error);
    assert_eq!(logs[3].message, "Error message");
}

#[test]
fn test_logger_with_thread_id() {
    let mut logger = CutListLoggerImpl::new();

    logger.log_with_thread(LogLevel::Info, "Thread message", "thread-1");

    let logs = logger.get_logs();
    assert_eq!(logs.len(), 1);
    assert_eq!(logs[0].thread_id, Some("thread-1".to_string()));
}

#[test]
fn test_logger_max_entries() {
    let mut logger = CutListLoggerImpl::with_max_entries(2);

    logger.info("Message 1");
    logger.info("Message 2");
    logger.info("Message 3");

    let logs = logger.get_logs();
    assert_eq!(logs.len(), 2);
    assert_eq!(logs[0].message, "Message 2");
    assert_eq!(logs[1].message, "Message 3");
}

#[test]
fn test_logger_clear() {
    let mut logger = CutListLoggerImpl::new();

    logger.info("Message 1");
    logger.info("Message 2");

    assert_eq!(logger.get_logs().len(), 2);

    logger.clear_logs();
    assert_eq!(logger.get_logs().len(), 0);
}

#[test]
fn test_logger_filter_by_level() {
    let mut logger = CutListLoggerImpl::new();

    logger.info("Info message");
    logger.debug("Debug message");
    logger.error("Error message");

    let info_logs = logger.get_entries_by_level(LogLevel::Info);
    assert_eq!(info_logs.len(), 1);
    assert_eq!(info_logs[0].message, "Info message");

    let debug_logs = logger.get_entries_by_level(LogLevel::Debug);
    assert_eq!(debug_logs.len(), 1);
    assert_eq!(debug_logs[0].message, "Debug message");
}

#[test]
fn test_logger_filter_by_thread() {
    let mut logger = CutListLoggerImpl::new();

    logger.log_with_thread(LogLevel::Info, "Thread 1 message", "thread-1");
    logger.log_with_thread(LogLevel::Info, "Thread 2 message", "thread-2");
    logger.log_with_thread(LogLevel::Info, "Another thread 1 message", "thread-1");

    let thread1_logs = logger.get_entries_by_thread("thread-1");
    assert_eq!(thread1_logs.len(), 2);
    assert_eq!(thread1_logs[0].message, "Thread 1 message");
    assert_eq!(thread1_logs[1].message, "Another thread 1 message");

    let thread2_logs = logger.get_entries_by_thread("thread-2");
    assert_eq!(thread2_logs.len(), 1);
    assert_eq!(thread2_logs[0].message, "Thread 2 message");
}

#[test]
fn test_logger_recent_entries() {
    let mut logger = CutListLoggerImpl::new();

    logger.info("Message 1");
    logger.info("Message 2");
    logger.info("Message 3");
    logger.info("Message 4");

    let recent = logger.get_recent_entries(2);
    assert_eq!(recent.len(), 2);
    assert_eq!(recent[0].message, "Message 3");
    assert_eq!(recent[1].message, "Message 4");
}

#[test]
fn test_logger_enabled_disabled() {
    let mut logger = CutListLoggerImpl::new();

    logger.info("Message 1");
    assert_eq!(logger.get_logs().len(), 1);

    logger.set_enabled(false);
    logger.info("Message 2");
    assert_eq!(logger.get_logs().len(), 1);

    logger.set_enabled(true);
    logger.info("Message 3");
    assert_eq!(logger.get_logs().len(), 2);
}

#[test]
fn log_with_room_for_none_keeps_nothing() {
    let mut logger = CutListLoggerImpl::with_max_entries(0);
    logger.info("Message");
    assert!(logger.get_logs().is_empty());
}
