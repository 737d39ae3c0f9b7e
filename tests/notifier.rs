use fremkit::notifier::Notifier;

#[test]
fn test_can_notify() {
    let mut notifier = Notifier::new();

    notifier.notify();
}

#[test]
fn notifier_counts_waiters_and_releases_them() {
    let mut n = Notifier::new();

    assert_eq!(n.count(), 0);
    let a = n.wait();
    let b = n.wait();
    assert_eq!(n.count(), 2);
    assert!(!n.is_woken(a));
    assert!(!n.is_woken(b));

    n.notify();

    assert_eq!(n.count(), 0);
    assert!(n.is_woken(a));
    assert!(n.is_woken(b));
}

#[test]
fn notifier_wait_if_arms_only_when_blocked() {
    let mut n = Notifier::new();

    assert_eq!(n.wait_if(false), None);
    assert_eq!(n.count(), 0);

    let t = n.wait_if(true).unwrap();
    assert_eq!(n.count(), 1);
    assert!(!n.is_woken(t));
}

#[test]
fn notifier_notify_if() {
    let mut n = Notifier::new();
    let t = n.wait();

    assert!(!n.notify_if(false));
    assert!(!n.is_woken(t));
    assert_eq!(n.count(), 1);

    assert!(n.notify_if(true));
    assert!(n.is_woken(t));
    assert_eq!(n.count(), 0);
}
