use audio_workflow::jobs::JobBudget;

#[test]
fn budget_admits_up_to_capacity() {
    let mut b = JobBudget::new(2);
    assert!(b.try_acquire());
    assert!(b.try_acquire());
    assert!(!b.try_acquire());
    assert_eq!(b.in_flight, 2);
}

#[test]
fn budget_frees_slots_on_release() {
    let mut b = JobBudget::new(1);
    assert!(b.try_acquire());
    assert!(!b.try_acquire());
    b.release();
    assert!(b.try_acquire());
}

#[test]
fn budget_release_without_jobs_is_harmless() {
    let mut b = JobBudget::new(3);
    b.release();
    assert_eq!(b.in_flight, 0);
    assert!(b.try_acquire());
    assert_eq!(b.in_flight, 1);
}

#[test]
fn zero_capacity_budget_admits_nothing() {
    let mut b = JobBudget::new(0);
    assert!(!b.try_acquire());
}
