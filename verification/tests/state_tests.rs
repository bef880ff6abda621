use downloader_core::state::DownloadManager;

#[test]
fn test_download_manager_cancellation_tracking() {
    let mut dm: DownloadManager<u32> = DownloadManager::default();
    assert!(!dm.is_cancelled("task_test"));

    // Mark task as cancelled
    assert!(dm.mark_cancelled("task_test").is_ok());
    assert!(dm.is_cancelled("task_test"));

    // Clean up task cancellation
    assert!(dm.clear_cancelled("task_test"));
    assert!(!dm.is_cancelled("task_test"));
}
