use reminder::scheduler::BatchRefreshScheduler;

#[test]
fn batch_scheduler_triggers_after_interval() {
    let mut scheduler = BatchRefreshScheduler::new(1);
    assert!(scheduler.should_trigger_at(100));
    scheduler.mark_triggered_at(100);
    // Two seconds later a one-second interval has elapsed again.
    assert!(scheduler.should_trigger_at(102));
}

#[test]
fn scheduler_not_due_right_after_firing() {
    let mut scheduler = BatchRefreshScheduler::new(5);
    assert!(scheduler.should_trigger_at(10));
    scheduler.mark_triggered_at(10);
    assert!(!scheduler.should_trigger_at(10));
    assert!(!scheduler.should_trigger_at(14));
    assert!(scheduler.should_trigger_at(15));
}
